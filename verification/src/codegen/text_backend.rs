use vstd::prelude::*;

use crate::codegen::artifact::CodegenArtifact;
use crate::codegen::backend::CodegenBackend;
use crate::codegen::artifact::CodegenOutput;
use crate::codegen::context::{default_runtime, sig_views, CodegenContext, CodegenTarget, LlvmModule, SigView, DEFAULT_DATA_LAYOUT, DEFAULT_TARGET_TRIPLE};
use crate::codegen::error::{CodegenError, CodegenResult};
use crate::codegen::context::{proto_index, sig_pos};
use crate::codegen::llvm::{call_agrees, calls_agree, LlvmLifecycle};
use crate::ir::block::{BasicBlock, BasicBlockId};
use crate::ir::instruction::{IRBinaryOp, IRInstruction, IRInstructionKind, IROperand, IRUnaryOp};
use crate::ir::module::{first_pos, IRFunction, IRModule};
use crate::ir::value::{IRValue, IRValueId};
use crate::pipeline::{trim, trimmed};
use crate::text::{chars_of, copy_strings, i64_to_string, int_text, join_strings, joined, push_char, push_str, str_equal, string_from, strs};

verus! {

/// `c` in lower case, for an ASCII letter; any other character as it is.
pub open spec fn ascii_lower(c: char) -> char {
    if 'A' <= c && c <= 'Z' {
        ((c as u32) + 32) as char
    } else {
        c
    }
}

/// Every character of `s` is an ASCII digit.
pub open spec fn all_digits(s: Seq<char>) -> bool {
    forall|i: int| 0 <= i < s.len() ==> '0' <= #[trigger] s[i] && s[i] <= '9'
}

/// The LLVM spelling of a type name, written without surrounding space and
/// not empty, by its lower-case form.
pub open spec fn llvm_type_of(raw: Seq<char>) -> Seq<char> {
    let l = raw.map_values(|c: char| ascii_lower(c));
    if l == "number"@ || l == "float"@ || l == "f64"@ || l == "double"@ {
        "double"@
    } else if l == "boolean"@ || l == "bool"@ {
        "i1"@
    } else if l == "string"@ || l == "str"@ || l == "text"@ {
        "ptr"@
    } else if l == "void"@ {
        "void"@
    } else if l == "i8"@ || l == "i16"@ || l == "i32"@ || l == "i64"@ {
        l
    } else if l == "u8"@ || l == "u16"@ || l == "u32"@ || l == "u64"@ || l == "int"@ || l == "integer"@ || l
        == "isize"@ || l == "usize"@ {
        "i64"@
    } else if l == "ptr"@ || l == "pointer"@ {
        "ptr"@
    } else if l.len() > 1 && l[0] == 'i' && all_digits(l.drop_first()) {
        l
    } else {
        "ptr"@
    }
}

/// The LLVM type for an optional type name: `i64` when there is none or it
/// is blank.
pub open spec fn llvm_type_spec(t: Option<Seq<char>>) -> Seq<char> {
    match t {
        None => "i64"@,
        Some(s) => {
            let raw = trimmed(s);
            if raw.len() == 0 {
                "i64"@
            } else {
                llvm_type_of(raw)
            }
        },
    }
}

/// The characters of an optional string.
pub open spec fn opt_text(t: Option<String>) -> Option<Seq<char>> {
    match t {
        Some(s) => Some(s@),
        None => None,
    }
}

/// `s` without the `%` signs it starts with.
pub open spec fn strip_percent(s: Seq<char>) -> Seq<char>
    decreases s.len(),
{
    if s.len() > 0 && s[0] == '%' {
        strip_percent(s.drop_first())
    } else {
        s
    }
}

/// The character of a hexadecimal digit, in upper case.
pub open spec fn hex_char(d: nat) -> char {
    if d < 10 {
        ((d + 48) as u32) as char
    } else {
        ((d + 55) as u32) as char
    }
}

/// The last `k` hexadecimal digits of `n`, most significant first.
pub open spec fn hex_digits(n: nat, k: nat) -> Seq<char>
    decreases k,
{
    if k == 0 {
        Seq::empty()
    } else {
        hex_digits(n / 16, (k - 1) as nat).push(hex_char(n % 16))
    }
}

/// How an operand is written: `%name`, a decimal integer, a float as `0x`
/// and the 16 hexadecimal digits of its bits, `true`/`false`, or a quoted text.
pub open spec fn operand_text(o: IROperand) -> Seq<char> {
    match o {
        IROperand::Value(id) => "%"@ + strip_percent(id.0@),
        IROperand::Integer(v) => int_text(v as int),
        IROperand::Float(bits) => "0x"@ + hex_digits(bits as nat, 16),
        IROperand::Boolean(b) => if b {
            "true"@
        } else {
            "false"@
        },
        IROperand::Text(s) => "\""@ + s@ + "\""@,
    }
}

/// The LLVM type assumed for a constant operand: `i1`, `double`, `ptr`, else `i64`.
pub open spec fn operand_type(o: IROperand) -> Seq<char> {
    match o {
        IROperand::Boolean(_) => "i1"@,
        IROperand::Float(_) => "double"@,
        IROperand::Text(_) => "ptr"@,
        _ => "i64"@,
    }
}

/// The LLVM instruction of a binary operation.
pub open spec fn binary_op_text(op: IRBinaryOp) -> Seq<char> {
    match op {
        IRBinaryOp::Add => "add"@,
        IRBinaryOp::Sub => "sub"@,
        IRBinaryOp::Mul => "mul"@,
        IRBinaryOp::Div => "sdiv"@,
        IRBinaryOp::And => "and"@,
        IRBinaryOp::Or => "or"@,
        IRBinaryOp::Eq => "icmp eq"@,
        IRBinaryOp::Ne => "icmp ne"@,
        IRBinaryOp::Lt => "icmp slt"@,
        IRBinaryOp::Le => "icmp sle"@,
        IRBinaryOp::Gt => "icmp sgt"@,
        IRBinaryOp::Ge => "icmp sge"@,
    }
}

/// What an IR binary operation computes on two 64-bit integers: arithmetic
/// wraps around, division truncates toward zero, `and` and `or` work bit by
/// bit, and a comparison gives 1 when it holds and 0 when not.
pub open spec fn ir_binary_value(op: IRBinaryOp, a: i64, b: i64) -> int {
    match op {
        IRBinaryOp::Add => (a + b) as i64 as int,
        IRBinaryOp::Sub => (a - b) as i64 as int,
        IRBinaryOp::Mul => (a * b) as i64 as int,
        IRBinaryOp::Div => truncated_quotient(a as int, b as int) as i64 as int,
        IRBinaryOp::And => (a & b) as int,
        IRBinaryOp::Or => (a | b) as int,
        IRBinaryOp::Eq => if a == b { 1 } else { 0 },
        IRBinaryOp::Ne => if a != b { 1 } else { 0 },
        IRBinaryOp::Lt => if a < b { 1 } else { 0 },
        IRBinaryOp::Le => if a <= b { 1 } else { 0 },
        IRBinaryOp::Gt => if a > b { 1 } else { 0 },
        IRBinaryOp::Ge => if a >= b { 1 } else { 0 },
    }
}

/// The quotient of `a` by `b` rounded toward zero.
pub open spec fn truncated_quotient(a: int, b: int) -> int {
    let q = (if a >= 0 { a } else { -a }) / (if b >= 0 { b } else { -b });
    if (a >= 0) == (b >= 0) {
        q
    } else {
        -q
    }
}

/// What an LLVM integer instruction computes on two `i64` operands, by the
/// opcode written in it (`add`, `sub`, `mul`, `sdiv`, `and`, `or`, and
/// `icmp` with the conditions `eq`, `ne`, `slt`, `sle`, `sgt`, `sge`).
pub open spec fn llvm_binary_value(opcode: Seq<char>, a: i64, b: i64) -> Option<int> {
    if opcode == "add"@ {
        Some((a + b) as i64 as int)
    } else if opcode == "sub"@ {
        Some((a - b) as i64 as int)
    } else if opcode == "mul"@ {
        Some((a * b) as i64 as int)
    } else if opcode == "sdiv"@ {
        Some(truncated_quotient(a as int, b as int) as i64 as int)
    } else if opcode == "and"@ {
        Some((a & b) as int)
    } else if opcode == "or"@ {
        Some((a | b) as int)
    } else if opcode == "icmp eq"@ {
        Some(if a == b { 1int } else { 0int })
    } else if opcode == "icmp ne"@ {
        Some(if a != b { 1int } else { 0int })
    } else if opcode == "icmp slt"@ {
        Some(if a < b { 1int } else { 0int })
    } else if opcode == "icmp sle"@ {
        Some(if a <= b { 1int } else { 0int })
    } else if opcode == "icmp sgt"@ {
        Some(if a > b { 1int } else { 0int })
    } else if opcode == "icmp sge"@ {
        Some(if a >= b { 1int } else { 0int })
    } else {
        None
    }
}

/// The opcodes written for IR binary operations differ from one another.
proof fn lemma_opcode_texts_differ()
    ensures
        "add"@ != "sub"@,
        "add"@ != "mul"@,
        "sub"@ != "mul"@,
        "add"@ != "sdiv"@,
        "sub"@ != "sdiv"@,
        "mul"@ != "sdiv"@,
        "add"@ != "and"@,
        "sub"@ != "and"@,
        "mul"@ != "and"@,
        "sdiv"@ != "and"@,
        "add"@ != "or"@,
        "sub"@ != "or"@,
        "mul"@ != "or"@,
        "sdiv"@ != "or"@,
        "and"@ != "or"@,
        "add"@ != "icmp eq"@,
        "sub"@ != "icmp eq"@,
        "mul"@ != "icmp eq"@,
        "sdiv"@ != "icmp eq"@,
        "and"@ != "icmp eq"@,
        "or"@ != "icmp eq"@,
        "add"@ != "icmp ne"@,
        "sub"@ != "icmp ne"@,
        "mul"@ != "icmp ne"@,
        "sdiv"@ != "icmp ne"@,
        "and"@ != "icmp ne"@,
        "or"@ != "icmp ne"@,
        "icmp eq"@ != "icmp ne"@,
        "add"@ != "icmp slt"@,
        "sub"@ != "icmp slt"@,
        "mul"@ != "icmp slt"@,
        "sdiv"@ != "icmp slt"@,
        "and"@ != "icmp slt"@,
        "or"@ != "icmp slt"@,
        "icmp eq"@ != "icmp slt"@,
        "icmp ne"@ != "icmp slt"@,
        "add"@ != "icmp sle"@,
        "sub"@ != "icmp sle"@,
        "mul"@ != "icmp sle"@,
        "sdiv"@ != "icmp sle"@,
        "and"@ != "icmp sle"@,
        "or"@ != "icmp sle"@,
        "icmp eq"@ != "icmp sle"@,
        "icmp ne"@ != "icmp sle"@,
        "icmp slt"@ != "icmp sle"@,
        "add"@ != "icmp sgt"@,
        "sub"@ != "icmp sgt"@,
        "mul"@ != "icmp sgt"@,
        "sdiv"@ != "icmp sgt"@,
        "and"@ != "icmp sgt"@,
        "or"@ != "icmp sgt"@,
        "icmp eq"@ != "icmp sgt"@,
        "icmp ne"@ != "icmp sgt"@,
        "icmp slt"@ != "icmp sgt"@,
        "icmp sle"@ != "icmp sgt"@,
        "add"@ != "icmp sge"@,
        "sub"@ != "icmp sge"@,
        "mul"@ != "icmp sge"@,
        "sdiv"@ != "icmp sge"@,
        "and"@ != "icmp sge"@,
        "or"@ != "icmp sge"@,
        "icmp eq"@ != "icmp sge"@,
        "icmp ne"@ != "icmp sge"@,
        "icmp slt"@ != "icmp sge"@,
        "icmp sle"@ != "icmp sge"@,
        "icmp sgt"@ != "icmp sge"@,
{
    reveal_strlit("add");
    reveal_strlit("sub");
    reveal_strlit("mul");
    reveal_strlit("sdiv");
    reveal_strlit("and");
    reveal_strlit("or");
    reveal_strlit("icmp eq");
    reveal_strlit("icmp ne");
    reveal_strlit("icmp slt");
    reveal_strlit("icmp sle");
    reveal_strlit("icmp sgt");
    reveal_strlit("icmp sge");
    assert("add"@[0] != "sub"@[0]);
    assert("add"@[0] != "mul"@[0]);
    assert("sub"@[0] != "mul"@[0]);
    assert("add"@.len() != "sdiv"@.len());
    assert("sub"@.len() != "sdiv"@.len());
    assert("mul"@.len() != "sdiv"@.len());
    assert("add"@[1] != "and"@[1]);
    assert("sub"@[0] != "and"@[0]);
    assert("mul"@[0] != "and"@[0]);
    assert("sdiv"@.len() != "and"@.len());
    assert("add"@.len() != "or"@.len());
    assert("sub"@.len() != "or"@.len());
    assert("mul"@.len() != "or"@.len());
    assert("sdiv"@.len() != "or"@.len());
    assert("and"@.len() != "or"@.len());
    assert("add"@.len() != "icmp eq"@.len());
    assert("sub"@.len() != "icmp eq"@.len());
    assert("mul"@.len() != "icmp eq"@.len());
    assert("sdiv"@.len() != "icmp eq"@.len());
    assert("and"@.len() != "icmp eq"@.len());
    assert("or"@.len() != "icmp eq"@.len());
    assert("add"@.len() != "icmp ne"@.len());
    assert("sub"@.len() != "icmp ne"@.len());
    assert("mul"@.len() != "icmp ne"@.len());
    assert("sdiv"@.len() != "icmp ne"@.len());
    assert("and"@.len() != "icmp ne"@.len());
    assert("or"@.len() != "icmp ne"@.len());
    assert("icmp eq"@[5] != "icmp ne"@[5]);
    assert("add"@.len() != "icmp slt"@.len());
    assert("sub"@.len() != "icmp slt"@.len());
    assert("mul"@.len() != "icmp slt"@.len());
    assert("sdiv"@.len() != "icmp slt"@.len());
    assert("and"@.len() != "icmp slt"@.len());
    assert("or"@.len() != "icmp slt"@.len());
    assert("icmp eq"@.len() != "icmp slt"@.len());
    assert("icmp ne"@.len() != "icmp slt"@.len());
    assert("add"@.len() != "icmp sle"@.len());
    assert("sub"@.len() != "icmp sle"@.len());
    assert("mul"@.len() != "icmp sle"@.len());
    assert("sdiv"@.len() != "icmp sle"@.len());
    assert("and"@.len() != "icmp sle"@.len());
    assert("or"@.len() != "icmp sle"@.len());
    assert("icmp eq"@.len() != "icmp sle"@.len());
    assert("icmp ne"@.len() != "icmp sle"@.len());
    assert("icmp slt"@[7] != "icmp sle"@[7]);
    assert("add"@.len() != "icmp sgt"@.len());
    assert("sub"@.len() != "icmp sgt"@.len());
    assert("mul"@.len() != "icmp sgt"@.len());
    assert("sdiv"@.len() != "icmp sgt"@.len());
    assert("and"@.len() != "icmp sgt"@.len());
    assert("or"@.len() != "icmp sgt"@.len());
    assert("icmp eq"@.len() != "icmp sgt"@.len());
    assert("icmp ne"@.len() != "icmp sgt"@.len());
    assert("icmp slt"@[6] != "icmp sgt"@[6]);
    assert("icmp sle"@[6] != "icmp sgt"@[6]);
    assert("add"@.len() != "icmp sge"@.len());
    assert("sub"@.len() != "icmp sge"@.len());
    assert("mul"@.len() != "icmp sge"@.len());
    assert("sdiv"@.len() != "icmp sge"@.len());
    assert("and"@.len() != "icmp sge"@.len());
    assert("or"@.len() != "icmp sge"@.len());
    assert("icmp eq"@.len() != "icmp sge"@.len());
    assert("icmp ne"@.len() != "icmp sge"@.len());
    assert("icmp slt"@[6] != "icmp sge"@[6]);
    assert("icmp sle"@[6] != "icmp sge"@[6]);
    assert("icmp sgt"@[7] != "icmp sge"@[7]);
}

/// The opcode written for each IR binary operation computes what that
/// operation computes, on every pair of operands: a subtraction is written
/// as `sub`, a less-than comparison as `icmp slt`, and so on.
pub proof fn law_binary_opcode_means_the_operation(op: IRBinaryOp, a: i64, b: i64)
    ensures
        llvm_binary_value(binary_op_text(op), a, b) == Some(ir_binary_value(op, a, b)),
{
    lemma_opcode_texts_differ();
}

/// Different IR binary operations are written with different opcodes.
pub proof fn law_binary_opcodes_distinct(x: IRBinaryOp, y: IRBinaryOp)
    requires
        x != y,
    ensures
        binary_op_text(x) != binary_op_text(y),
{
    lemma_opcode_texts_differ();
}

/// The rendering of a piece of a function: its text, or the failure of an
/// instruction, with the block it stands in and the message.
pub enum Rendered {
    Text(Seq<char>),
    Fail(Seq<char>, Seq<char>),
}

/// The LLVM return type of the function of `m` named `callee`, `i64` when
/// there is none.
pub open spec fn callee_return_type(m: IRModule, callee: Seq<char>) -> Seq<char> {
    let i = first_pos(m.function_names(), callee);
    if i >= 0 {
        llvm_type_spec(opt_text(m.functions@[i].return_type))
    } else {
        "i64"@
    }
}

/// The incoming pairs of a phi node, as written: `[ %v, %block ]`.
pub open spec fn incoming_texts(inc: Seq<(IRValueId, BasicBlockId)>) -> Seq<Seq<char>> {
    inc.map_values(
        |p: (IRValueId, BasicBlockId)|
            "[ "@ + operand_text(IROperand::Value(p.0)) + ", %"@ + p.1.0@ + " ]"@,
    )
}

/// The arguments of a call, as written: type, space, operand.
pub open spec fn argument_texts(args: Seq<IROperand>) -> Seq<Seq<char>> {
    args.map_values(|a: IROperand| operand_type(a) + " "@ + operand_text(a))
}

/// The lines of one instruction of function `f` of module `m`.
pub open spec fn instruction_render(m: IRModule, f: IRFunction, k: IRInstructionKind) -> Rendered {
    match k {
        IRInstructionKind::Assign { target, value, .. } => {
            let ty = operand_type(value);
            let addr = "%"@ + strip_percent(target.0@) + ".addr"@;
            Rendered::Text(
                "  "@ + addr + " = alloca "@ + ty + "\n  store "@ + ty + " "@ + operand_text(value) + ", ptr "@ + addr
                    + "\n  "@ + target.0@ + " = load "@ + ty + ", ptr "@ + addr,
            )
        },
        IRInstructionKind::Binary { target, op, left, right } => {
            let ty = if op == IRBinaryOp::And || op == IRBinaryOp::Or {
                "i1"@
            } else {
                "i64"@
            };
            Rendered::Text(
                "  "@ + target.0@ + " = "@ + binary_op_text(op) + " "@ + ty + " "@ + operand_text(left) + ", "@
                    + operand_text(right),
            )
        },
        IRInstructionKind::Unary { target, op, operand } => match op {
            IRUnaryOp::Neg => Rendered::Text("  "@ + target.0@ + " = sub i64 0, "@ + operand_text(operand)),
            IRUnaryOp::Not => Rendered::Text("  "@ + target.0@ + " = xor i1 true, "@ + operand_text(operand)),
        },
        IRInstructionKind::Phi { target, incoming, .. } => if incoming@.len() == 0 {
            Rendered::Fail(Seq::empty(), "phi node for target '"@ + target.0@ + "' has no incoming edges"@)
        } else {
            Rendered::Text("  "@ + target.0@ + " = phi i64 "@ + joined(incoming_texts(incoming@), ", "@))
        },
        IRInstructionKind::Jump { target } => Rendered::Text("  br label %"@ + target.0@),
        IRInstructionKind::Branch { condition, then_block, else_block } => Rendered::Text(
            "  br i1 "@ + operand_text(condition) + ", label %"@ + then_block.0@ + ", label %"@ + else_block.0@,
        ),
        IRInstructionKind::Return(Some(o)) => Rendered::Text(
            "  ret "@ + llvm_type_spec(opt_text(f.return_type)) + " "@ + operand_text(o),
        ),
        IRInstructionKind::Return(None) => Rendered::Text("  ret void"@),
        IRInstructionKind::Call { target, callee, arguments, .. } => {
            let ret = callee_return_type(m, callee@);
            let args = joined(argument_texts(arguments@), ", "@);
            if target is Some && ret == "void"@ {
                Rendered::Fail(Seq::empty(), "cannot assign result of void function '"@ + callee@ + "'"@)
            } else {
                match target {
                    Some(v) => Rendered::Text(
                        "  "@ + v.0@ + " = call "@ + ret + " @"@ + callee@ + "("@ + args + ")"@,
                    ),
                    None => Rendered::Text("  call "@ + ret + " @"@ + callee@ + "("@ + args + ")"@),
                }
            }
        },
        IRInstructionKind::Nop => Rendered::Text("  ; nop"@),
    }
}

/// The instructions of a block, one per line, or the first that fails.
pub open spec fn instructions_render(m: IRModule, f: IRFunction, ins: Seq<IRInstruction>) -> Rendered
    decreases ins.len(),
{
    if ins.len() == 0 {
        Rendered::Text(Seq::empty())
    } else {
        match instructions_render(m, f, ins.drop_last()) {
            Rendered::Text(t) => match instruction_render(m, f, ins.last().kind) {
                Rendered::Text(x) => Rendered::Text(t + x + "\n"@),
                Rendered::Fail(b, msg) => Rendered::Fail(b, msg),
            },
            Rendered::Fail(b, msg) => Rendered::Fail(b, msg),
        }
    }
}

/// The blocks of a function: each its label and its instructions; or the
/// first instruction that fails, with its block.
pub open spec fn blocks_render(m: IRModule, f: IRFunction, bs: Seq<BasicBlock>) -> Rendered
    decreases bs.len(),
{
    if bs.len() == 0 {
        Rendered::Text(Seq::empty())
    } else {
        match blocks_render(m, f, bs.drop_last()) {
            Rendered::Text(t) => match instructions_render(m, f, bs.last().instructions@) {
                Rendered::Text(x) => Rendered::Text(t + bs.last().id.0@ + ":\n"@ + x),
                Rendered::Fail(_, msg) => Rendered::Fail(bs.last().id.0@, msg),
            },
            Rendered::Fail(b, msg) => Rendered::Fail(b, msg),
        }
    }
}

/// A parameter as written in a signature: its LLVM type and `%name`.
pub open spec fn parameter_texts(ps: Seq<IRValue>) -> Seq<Seq<char>> {
    ps.map_values(|p: IRValue| llvm_type_spec(opt_text(p.ty)) + " %"@ + p.id.0@)
}

/// The definition of function `f` of `m`: its header, its blocks, and one
/// closing brace after the last block.
pub open spec fn function_render(m: IRModule, f: IRFunction) -> Rendered {
    match blocks_render(m, f, f.blocks@) {
        Rendered::Text(t) => Rendered::Text(
            "define "@ + llvm_type_spec(opt_text(f.return_type)) + " @"@ + f.name@ + "("@ + joined(
                parameter_texts(f.parameters@),
                ", "@,
            ) + ") {\n"@ + t + "}\n\n"@,
        ),
        Rendered::Fail(b, msg) => Rendered::Fail(b, msg),
    }
}

/// `c` in lower case when it is an ASCII capital letter.
fn lower_char(c: char) -> (r: char)
    ensures
        r == ascii_lower(c),
{
    if 'A' <= c && c <= 'Z' {
        let code: u32 = c as u32;
        let lowered: u8 = (code + 32) as u8;
        assert(lowered as u32 == (c as u32) + 32);
        lowered as char
    } else {
        c
    }
}

/// The hexadecimal character of `d`.
fn hex_char_of(d: u64) -> (c: char)
    requires
        d < 16,
    ensures
        c == hex_char(d as nat),
{
    let code: u8 = if d < 10 {
        (d + 48) as u8
    } else {
        (d + 55) as u8
    };
    code as char
}

/// The last `k` hexadecimal digits of `n`.
fn hex_of(n: u64, k: usize) -> (r: String)
    ensures
        r@ == hex_digits(n as nat, k as nat),
    decreases k,
{
    if k == 0 {
        String::new()
    } else {
        let mut r = hex_of(n / 16, k - 1);
        push_char(&mut r, hex_char_of(n % 16));
        r
    }
}

/// `s` without its leading `%` signs.
fn strip_percent_exec(s: &str) -> (r: String)
    ensures
        r@ == strip_percent(s@),
{
    let cs = chars_of(s);
    let mut i: usize = 0;
    assert(cs@.subrange(0, cs@.len() as int) =~= cs@);
    while i < cs.len() && cs[i] == '%'
        invariant
            0 <= i <= cs@.len(),
            cs@ == s@,
            strip_percent(s@) == strip_percent(cs@.subrange(i as int, cs@.len() as int)),
        decreases cs@.len() - i,
    {
        assert(cs@.subrange(i as int, cs@.len() as int).drop_first() =~= cs@.subrange(i + 1, cs@.len() as int));
        i = i + 1;
    }
    let mut out = String::new();
    let mut k = i;
    while k < cs.len()
        invariant
            i <= k <= cs@.len(),
            out@ == cs@.subrange(i as int, k as int),
        decreases cs@.len() - k,
    {
        push_char(&mut out, cs[k]);
        assert(cs@.subrange(i as int, k + 1) =~= cs@.subrange(i as int, k as int).push(cs@[k as int]));
        k = k + 1;
    }
    out
}

/// Writes the text of `o` after `out`.
fn push_operand(out: &mut String, o: &IROperand)
    ensures
        final(out)@ == old(out)@ + operand_text(*o),
{
    match o {
        IROperand::Value(id) => {
            push_str(out, "%");
            let name = strip_percent_exec(id.0.as_str());
            push_str(out, name.as_str());
        },
        IROperand::Integer(v) => {
            let t = i64_to_string(*v);
            push_str(out, t.as_str());
        },
        IROperand::Float(bits) => {
            push_str(out, "0x");
            let h = hex_of(*bits, 16);
            push_str(out, h.as_str());
        },
        IROperand::Boolean(b) => {
            if *b {
                push_str(out, "true");
            } else {
                push_str(out, "false");
            }
        },
        IROperand::Text(s) => {
            push_str(out, "\"");
            push_str(out, s.as_str());
            push_str(out, "\"");
        },
    }
}

/// The LLVM type assumed for a constant operand.
fn operand_type_str(o: &IROperand) -> (r: &'static str)
    ensures
        r@ == operand_type(*o),
{
    match o {
        IROperand::Boolean(_) => "i1",
        IROperand::Float(_) => "double",
        IROperand::Text(_) => "ptr",
        _ => "i64",
    }
}

/// Whether every character of `cs` from `from` on is an ASCII digit.
fn digits_from(cs: &Vec<char>, from: usize) -> (r: bool)
    requires
        from <= cs@.len(),
    ensures
        r == all_digits(cs@.subrange(from as int, cs@.len() as int)),
{
    let mut i = from;
    while i < cs.len()
        invariant
            from <= i <= cs@.len(),
            all_digits(cs@.subrange(from as int, i as int)),
        decreases cs@.len() - i,
    {
        if !('0' <= cs[i] && cs[i] <= '9') {
            assert(cs@.subrange(from as int, cs@.len() as int)[i - from] == cs@[i as int]);
            return false;
        }
        assert(forall|j: int| 0 <= j < i + 1 - from ==> #[trigger] cs@.subrange(from as int, i + 1)[j] == cs@[from + j]);
        i = i + 1;
    }
    true
}

/// The LLVM type of the trimmed, non-empty type name `raw`.
fn llvm_type_of_exec(raw: &str) -> (r: String)
    ensures
        r@ == llvm_type_of(raw@),
{
    let cs = chars_of(raw);
    let mut l = String::new();
    let mut lc: Vec<char> = Vec::new();
    let mut i: usize = 0;
    while i < cs.len()
        invariant
            0 <= i <= cs@.len(),
            cs@ == raw@,
            l@ == cs@.take(i as int).map_values(|c: char| ascii_lower(c)),
            lc@ == l@,
        decreases cs@.len() - i,
    {
        let c = lower_char(cs[i]);
        push_char(&mut l, c);
        lc.push(c);
        assert(cs@.take(i + 1).map_values(|c: char| ascii_lower(c)) =~= cs@.take(i as int).map_values(
            |c: char| ascii_lower(c),
        ).push(c));
        i = i + 1;
    }
    assert(cs@.take(i as int) =~= raw@);
    let s = l.as_str();
    if str_equal(s, "number") || str_equal(s, "float") || str_equal(s, "f64") || str_equal(s, "double") {
        string_from("double")
    } else if str_equal(s, "boolean") || str_equal(s, "bool") {
        string_from("i1")
    } else if str_equal(s, "string") || str_equal(s, "str") || str_equal(s, "text") {
        string_from("ptr")
    } else if str_equal(s, "void") {
        string_from("void")
    } else if str_equal(s, "i8") || str_equal(s, "i16") || str_equal(s, "i32") || str_equal(s, "i64") {
        l.clone()
    } else if str_equal(s, "u8") || str_equal(s, "u16") || str_equal(s, "u32") || str_equal(s, "u64")
        || str_equal(s, "int") || str_equal(s, "integer") || str_equal(s, "isize") || str_equal(s, "usize") {
        string_from("i64")
    } else if str_equal(s, "ptr") || str_equal(s, "pointer") {
        string_from("ptr")
    } else if lc.len() > 1 && lc[0] == 'i' && digits_from(&lc, 1) {
        assert(lc@.subrange(1, lc@.len() as int) =~= lc@.drop_first());
        l.clone()
    } else {
        proof {
            if lc@.len() > 1 && lc@[0] == 'i' {
                assert(lc@.subrange(1, lc@.len() as int) =~= lc@.drop_first());
            }
        }
        string_from("ptr")
    }
}

/// Emits LLVM IR as text.
#[derive(Debug)]
pub struct LlvmTextBackend {
    lifecycle: LlvmLifecycle,
}

impl LlvmTextBackend {
    pub closed spec fn spec_lifecycle(&self) -> LlvmLifecycle {
        self.lifecycle
    }

    /// A backend whose LLVM context has identifier `context_id`.
    pub fn new(context_id: u64) -> (b: LlvmTextBackend)
        ensures
            b.spec_lifecycle().spec_context_id() == context_id,
    {
        LlvmTextBackend { lifecycle: LlvmLifecycle::new(context_id) }
    }

    pub fn lifecycle(&self) -> (r: &LlvmLifecycle)
        ensures
            *r == self.spec_lifecycle(),
    {
        &self.lifecycle
    }

    /// The LLVM spelling of a compiler type name (see `llvm_type_spec`).
    pub fn llvm_type_for(language_type: Option<&str>) -> (r: String)
        ensures
            r@ == llvm_type_spec(
                match language_type {
                    Some(s) => Some(s@),
                    None => None,
                },
            ),
    {
        proof {
            reveal_strlit("i64");
        }
        match language_type {
            None => string_from("i64"),
            Some(s) => {
                let raw = trim(s);
                proof {
                    reveal_strlit("");
                }
                if str_equal(raw.as_str(), "") {
                    assert(raw@ =~= Seq::<char>::empty());
                    string_from("i64")
                } else {
                    proof {
                        if raw@.len() == 0 {
                            assert(raw@ =~= ""@);
                        }
                    }
                    llvm_type_of_exec(raw.as_str())
                }
            },
        }
    }

    /// The LLVM type of an optional type name held in a string.
    fn type_of_opt(t: &Option<String>) -> (r: String)
        ensures
            r@ == llvm_type_spec(opt_text(*t)),
    {
        match t {
            Some(s) => Self::llvm_type_for(Some(s.as_str())),
            None => Self::llvm_type_for(None),
        }
    }

    /// How an operand is written (see `operand_text`).
    pub fn render_operand(&self, operand: &IROperand) -> (r: String)
        ensures
            r@ == operand_text(*operand),
    {
        let mut r = String::new();
        push_operand(&mut r, operand);
        r
    }
}


impl LlvmTextBackend {
    /// The lines of one instruction of `function` (see `instruction_render`);
    /// the error is the failure's message.
    fn render_instruction(&self, module: &IRModule, function: &IRFunction, kind: &IRInstructionKind) -> (r: Result<
        String,
        String,
    >)
        ensures
            match instruction_render(*module, *function, *kind) {
                Rendered::Text(t) => r matches Ok(s) && s@ == t,
                Rendered::Fail(_, msg) => r matches Err(m) && m@ == msg,
            },
    {
        let mut out = String::new();
        match kind {
            IRInstructionKind::Assign { target, value, .. } => {
                let ty = operand_type_str(value);
                let base = strip_percent_exec(target.0.as_str());
                let mut addr = string_from("%");
                push_str(&mut addr, base.as_str());
                push_str(&mut addr, ".addr");
                push_str(&mut out, "  ");
                push_str(&mut out, addr.as_str());
                push_str(&mut out, " = alloca ");
                push_str(&mut out, ty);
                push_str(&mut out, "\n  store ");
                push_str(&mut out, ty);
                push_str(&mut out, " ");
                push_operand(&mut out, value);
                push_str(&mut out, ", ptr ");
                push_str(&mut out, addr.as_str());
                push_str(&mut out, "\n  ");
                push_str(&mut out, target.0.as_str());
                push_str(&mut out, " = load ");
                push_str(&mut out, ty);
                push_str(&mut out, ", ptr ");
                push_str(&mut out, addr.as_str());
                Ok(out)
            },
            IRInstructionKind::Binary { target, op, left, right } => {
                let op_name = match op {
                    IRBinaryOp::Add => "add",
                    IRBinaryOp::Sub => "sub",
                    IRBinaryOp::Mul => "mul",
                    IRBinaryOp::Div => "sdiv",
                    IRBinaryOp::And => "and",
                    IRBinaryOp::Or => "or",
                    IRBinaryOp::Eq => "icmp eq",
                    IRBinaryOp::Ne => "icmp ne",
                    IRBinaryOp::Lt => "icmp slt",
                    IRBinaryOp::Le => "icmp sle",
                    IRBinaryOp::Gt => "icmp sgt",
                    IRBinaryOp::Ge => "icmp sge",
                };
                let ty = match op {
                    IRBinaryOp::And | IRBinaryOp::Or => "i1",
                    _ => "i64",
                };
                push_str(&mut out, "  ");
                push_str(&mut out, target.0.as_str());
                push_str(&mut out, " = ");
                push_str(&mut out, op_name);
                push_str(&mut out, " ");
                push_str(&mut out, ty);
                push_str(&mut out, " ");
                push_operand(&mut out, left);
                push_str(&mut out, ", ");
                push_operand(&mut out, right);
                Ok(out)
            },
            IRInstructionKind::Unary { target, op, operand } => {
                push_str(&mut out, "  ");
                push_str(&mut out, target.0.as_str());
                match op {
                    IRUnaryOp::Neg => push_str(&mut out, " = sub i64 0, "),
                    IRUnaryOp::Not => push_str(&mut out, " = xor i1 true, "),
                }
                push_operand(&mut out, operand);
                Ok(out)
            },
            IRInstructionKind::Phi { target, incoming, .. } => {
                if incoming.len() == 0 {
                    let mut m = string_from("phi node for target '");
                    push_str(&mut m, target.0.as_str());
                    push_str(&mut m, "' has no incoming edges");
                    return Err(m);
                }
                push_str(&mut out, "  ");
                push_str(&mut out, target.0.as_str());
                push_str(&mut out, " = phi i64 ");
                let ghost xs = incoming_texts(incoming@);
                let ghost before = out@;
                let mut k: usize = 0;
                while k < incoming.len()
                    invariant
                        0 <= k <= incoming@.len(),
                        xs == incoming_texts(incoming@),
                        out@ == before + joined(xs.take(k as int), ", "@),
                    decreases incoming@.len() - k,
                {
                    assert(xs.take(k + 1).drop_last() == xs.take(k as int));
                    assert(xs.take(k + 1).last() == xs[k as int]);
                    if k > 0 {
                        push_str(&mut out, ", ");
                    } else {
                        assert(xs.take(1)[0] == xs[0]);
                    }
                    push_str(&mut out, "[ ");
                    push_operand(&mut out, &IROperand::Value(IRValueId(incoming[k].0.0.clone())));
                    push_str(&mut out, ", %");
                    push_str(&mut out, incoming[k].1.0.as_str());
                    push_str(&mut out, " ]");
                    k = k + 1;
                }
                assert(xs.take(k as int) == xs);
                Ok(out)
            },
            IRInstructionKind::Jump { target } => {
                push_str(&mut out, "  br label %");
                push_str(&mut out, target.0.as_str());
                Ok(out)
            },
            IRInstructionKind::Branch { condition, then_block, else_block } => {
                push_str(&mut out, "  br i1 ");
                push_operand(&mut out, condition);
                push_str(&mut out, ", label %");
                push_str(&mut out, then_block.0.as_str());
                push_str(&mut out, ", label %");
                push_str(&mut out, else_block.0.as_str());
                Ok(out)
            },
            IRInstructionKind::Return(Some(operand)) => {
                let ty = Self::type_of_opt(&function.return_type);
                push_str(&mut out, "  ret ");
                push_str(&mut out, ty.as_str());
                push_str(&mut out, " ");
                push_operand(&mut out, operand);
                Ok(out)
            },
            IRInstructionKind::Return(None) => {
                push_str(&mut out, "  ret void");
                Ok(out)
            },
            IRInstructionKind::Call { target, callee, arguments, .. } => {
                let ret_ty = match module.function(callee.as_str()) {
                    Some(g) => Self::type_of_opt(&g.return_type),
                    None => string_from("i64"),
                };
                if target.is_some() && str_equal(ret_ty.as_str(), "void") {
                    let mut m = string_from("cannot assign result of void function '");
                    push_str(&mut m, callee.as_str());
                    push_str(&mut m, "'");
                    return Err(m);
                }
                let ghost xs = argument_texts(arguments@);
                let mut args = String::new();
                let mut k: usize = 0;
                while k < arguments.len()
                    invariant
                        0 <= k <= arguments@.len(),
                        xs == argument_texts(arguments@),
                        args@ == joined(xs.take(k as int), ", "@),
                    decreases arguments@.len() - k,
                {
                    assert(xs.take(k + 1).drop_last() == xs.take(k as int));
                    assert(xs.take(k + 1).last() == xs[k as int]);
                    if k > 0 {
                        push_str(&mut args, ", ");
                    } else {
                        assert(xs.take(1)[0] == xs[0]);
                    }
                    push_str(&mut args, operand_type_str(&arguments[k]));
                    push_str(&mut args, " ");
                    push_operand(&mut args, &arguments[k]);
                    k = k + 1;
                }
                assert(xs.take(k as int) == xs);
                match target {
                    Some(value) => {
                        push_str(&mut out, "  ");
                        push_str(&mut out, value.0.as_str());
                        push_str(&mut out, " = call ");
                    },
                    None => {
                        push_str(&mut out, "  call ");
                    },
                }
                push_str(&mut out, ret_ty.as_str());
                push_str(&mut out, " @");
                push_str(&mut out, callee.as_str());
                push_str(&mut out, "(");
                push_str(&mut out, args.as_str());
                push_str(&mut out, ")");
                Ok(out)
            },
            IRInstructionKind::Nop => {
                push_str(&mut out, "  ; nop");
                Ok(out)
            },
        }
    }

    /// The definition of the function named `function_name` (see
    /// `function_render`). The function must be in the module; an
    /// instruction that cannot be written fails with its function and block.
    pub fn render_function(&self, module: &IRModule, function_name: &str) -> (r: CodegenResult<String>)
        ensures
            ({
                let i = first_pos(module.function_names(), function_name@);
                if i < 0 {
                    r matches Err(CodegenError::BackendFailure { message })
                        && message@ == "function '"@ + function_name@ + "' disappeared while rendering"@
                } else {
                    let f = module.functions@[i];
                    match function_render(*module, f) {
                        Rendered::Text(t) => r matches Ok(s) && s@ == t,
                        Rendered::Fail(b, msg) => r matches Err(CodegenError::UnsupportedInstruction {
                            function,
                            block,
                            message,
                        }) && function@ == f.name@ && block@ == b && message@ == msg,
                    }
                }
            }),
    {
        let function = match module.function(function_name) {
            Some(f) => f,
            None => {
                let mut m = string_from("function '");
                push_str(&mut m, function_name);
                push_str(&mut m, "' disappeared while rendering");
                return Err(CodegenError::BackendFailure { message: m });
            },
        };
        let return_type = Self::type_of_opt(&function.return_type);
        let ghost ps = parameter_texts(function.parameters@);
        let mut params = String::new();
        let mut k: usize = 0;
        while k < function.parameters.len()
            invariant
                0 <= k <= function.parameters@.len(),
                ps == parameter_texts(function.parameters@),
                params@ == joined(ps.take(k as int), ", "@),
            decreases function.parameters@.len() - k,
        {
            assert(ps.take(k + 1).drop_last() == ps.take(k as int));
            assert(ps.take(k + 1).last() == ps[k as int]);
            if k > 0 {
                push_str(&mut params, ", ");
            } else {
                assert(ps.take(1)[0] == ps[0]);
            }
            let ty = Self::type_of_opt(&function.parameters[k].ty);
            push_str(&mut params, ty.as_str());
            push_str(&mut params, " %");
            push_str(&mut params, function.parameters[k].id.0.as_str());
            k = k + 1;
        }
        assert(ps.take(k as int) == ps);
        let mut result = string_from("define ");
        push_str(&mut result, return_type.as_str());
        push_str(&mut result, " @");
        push_str(&mut result, function.name.as_str());
        push_str(&mut result, "(");
        push_str(&mut result, params.as_str());
        push_str(&mut result, ") {\n");
        let ghost header = result@;
        let ghost f = *function;
        let mut bi: usize = 0;
        assert(f.blocks@.take(0) =~= Seq::<BasicBlock>::empty());
        while bi < function.blocks.len()
            invariant
                0 <= bi <= f.blocks@.len(),
                f == *function,
                first_pos(module.function_names(), function_name@) >= 0,
                f == module.functions@[first_pos(module.function_names(), function_name@)],
                blocks_render(*module, f, f.blocks@.take(bi as int)) matches Rendered::Text(t) && result@ == header + t,
            decreases f.blocks@.len() - bi,
        {
            let block = &function.blocks[bi];
            let ghost prev = result@;
            assert(f.blocks@.take(bi + 1).drop_last() == f.blocks@.take(bi as int));
            assert(f.blocks@.take(bi + 1).last() == f.blocks@[bi as int]);
            push_str(&mut result, block.id.0.as_str());
            push_str(&mut result, ":\n");
            let ghost labelled = result@;
            let ghost ins = block.instructions@;
            let mut ii: usize = 0;
            assert(ins.take(0) =~= Seq::<IRInstruction>::empty());
            while ii < block.instructions.len()
                invariant
                    0 <= ii <= ins.len(),
                    ins == block.instructions@,
                    f == *function,
                    bi < f.blocks@.len(),
                    *block == f.blocks@[bi as int],
                    first_pos(module.function_names(), function_name@) >= 0,
                    f == module.functions@[first_pos(module.function_names(), function_name@)],
                    blocks_render(*module, f, f.blocks@.take(bi as int)) is Text,
                    instructions_render(*module, f, ins.take(ii as int)) matches Rendered::Text(x) && result@
                        == labelled + x,
                decreases ins.len() - ii,
            {
                assert(ins.take(ii + 1).drop_last() == ins.take(ii as int));
                assert(ins.take(ii + 1).last() == ins[ii as int]);
                match self.render_instruction(module, function, &block.instructions[ii].kind) {
                    Ok(line) => {
                        push_str(&mut result, line.as_str());
                        push_str(&mut result, "\n");
                    },
                    Err(message) => {
                        proof {
                            lemma_instructions_fail(*module, f, ins, ii as int);
                            lemma_blocks_fail(*module, f, f.blocks@, bi as int);
                        }
                        return Err(
                            CodegenError::UnsupportedInstruction {
                                function: function.name.clone(),
                                block: block.id.0.clone(),
                                message,
                            },
                        );
                    },
                }
                ii = ii + 1;
            }
            assert(ins.take(ii as int) == ins);
            bi = bi + 1;
        }
        assert(f.blocks@.take(bi as int) == f.blocks@);
        push_str(&mut result, "}\n\n");
        Ok(result)
    }
}

/// An instruction that fails makes the instructions of its block fail with
/// its message, when those before it are written.
proof fn lemma_instructions_fail(m: IRModule, f: IRFunction, ins: Seq<IRInstruction>, i: int)
    requires
        0 <= i < ins.len(),
        instructions_render(m, f, ins.take(i)) is Text,
        instruction_render(m, f, ins[i].kind) is Fail,
    ensures
        instructions_render(m, f, ins) is Fail,
        instructions_render(m, f, ins)->Fail_1 == instruction_render(m, f, ins[i].kind)->Fail_1,
    decreases ins.len() - i,
{
    if i == ins.len() - 1 {
        assert(ins.drop_last() == ins.take(i));
    } else {
        assert(ins.drop_last().take(i) == ins.take(i));
        assert(ins.drop_last()[i] == ins[i]);
        lemma_instructions_fail(m, f, ins.drop_last(), i);
    }
}

/// A block whose instructions fail makes the blocks fail at it, when those
/// before it are written.
proof fn lemma_blocks_fail(m: IRModule, f: IRFunction, bs: Seq<BasicBlock>, i: int)
    requires
        0 <= i < bs.len(),
        blocks_render(m, f, bs.take(i)) is Text,
        instructions_render(m, f, bs[i].instructions@) is Fail,
    ensures
        blocks_render(m, f, bs) is Fail,
        blocks_render(m, f, bs)->Fail_0 == bs[i].id.0@,
        blocks_render(m, f, bs)->Fail_1 == instructions_render(m, f, bs[i].instructions@)->Fail_1,
    decreases bs.len() - i,
{
    if i == bs.len() - 1 {
        assert(bs.drop_last() == bs.take(i));
    } else {
        assert(bs.drop_last().take(i) == bs.take(i));
        assert(bs.drop_last()[i] == bs[i]);
        lemma_blocks_fail(m, f, bs.drop_last(), i);
    }
}


/// The line that declares a signature: `declare RET @NAME(PARAMS)`.
pub open spec fn decl_line(s: SigView) -> Seq<char> {
    "declare "@ + s.1 + " @"@ + s.0 + "("@ + joined(s.2, ", "@) + ")\n"@
}

/// The declaration lines of a list of signatures.
pub open spec fn decl_lines(ss: Seq<SigView>) -> Seq<char>
    decreases ss.len(),
{
    if ss.len() == 0 {
        Seq::empty()
    } else {
        decl_lines(ss.drop_last()) + decl_line(ss.last())
    }
}

/// The first lines of an emitted module: its identifier, target triple and
/// data layout, and a blank line.
pub open spec fn module_header(c: CodegenContext) -> Seq<char> {
    let triple = match c.target_triple {
        Some(t) => t@,
        None => DEFAULT_TARGET_TRIPLE@,
    };
    let layout = match c.data_layout {
        Some(l) => l@,
        None => DEFAULT_DATA_LAYOUT@,
    };
    "; ModuleID = '"@ + c.module_name@ + "'\n"@ + "target triple = \""@ + triple + "\"\n"@ + "target datalayout = \""@
        + layout + "\"\n"@ + "\n"@
}

/// The definitions of the functions `fs` of `m`, each rendered as the first
/// function of `m` with its name, in order; or the first that fails.
pub open spec fn definitions_render(m: IRModule, fs: Seq<IRFunction>) -> Rendered
    decreases fs.len(),
{
    if fs.len() == 0 {
        Rendered::Text(Seq::empty())
    } else {
        match definitions_render(m, fs.drop_last()) {
            Rendered::Text(t) => match function_render(
                m,
                m.functions@[first_pos(m.function_names(), fs.last().name@)],
            ) {
                Rendered::Text(x) => Rendered::Text(t + x),
                Rendered::Fail(b, msg) => Rendered::Fail(b, msg),
            },
            Rendered::Fail(b, msg) => Rendered::Fail(b, msg),
        }
    }
}

/// The calls among a list of instructions, in order: callee and arguments.
pub open spec fn calls_in(ins: Seq<IRInstruction>) -> Seq<(Seq<char>, Seq<IROperand>)>
    decreases ins.len(),
{
    if ins.len() == 0 {
        Seq::empty()
    } else {
        calls_in(ins.drop_last()) + call_of(ins.last().kind)
    }
}

/// The call an instruction makes, if it is a call.
pub open spec fn call_of(k: IRInstructionKind) -> Seq<(Seq<char>, Seq<IROperand>)> {
    match k {
        IRInstructionKind::Call { callee, arguments, .. } => seq![(callee@, arguments@)],
        _ => Seq::empty(),
    }
}

/// The calls in a list of blocks, block after block.
pub open spec fn calls_in_blocks(bs: Seq<BasicBlock>) -> Seq<(Seq<char>, Seq<IROperand>)>
    decreases bs.len(),
{
    if bs.len() == 0 {
        Seq::empty()
    } else {
        calls_in_blocks(bs.drop_last()) + calls_in(bs.last().instructions@)
    }
}

/// The calls in a list of functions, function after function.
pub open spec fn calls_in_functions(fs: Seq<IRFunction>) -> Seq<(Seq<char>, Seq<IROperand>)>
    decreases fs.len(),
{
    if fs.len() == 0 {
        Seq::empty()
    } else {
        calls_in_functions(fs.drop_last()) + calls_in_blocks(fs.last().blocks@)
    }
}

/// A callee that is neither a function of `m` nor a runtime function.
pub open spec fn is_extern(m: IRModule, name: Seq<char>) -> bool {
    first_pos(m.function_names(), name) < 0 && sig_pos(default_runtime(), name) < 0
}

/// The prototype inferred for a call of an undeclared function: one
/// parameter per argument, typed as the argument, and return type `double`
/// when one of them is `double`, else `i64`.
pub open spec fn extern_sig(callee: Seq<char>, args: Seq<IROperand>) -> SigView {
    let params = args.map_values(|a: IROperand| operand_type(a));
    let ret = if exists|i: int| 0 <= i < params.len() && params[i] == "double"@ {
        "double"@
    } else {
        "i64"@
    };
    (callee, ret, params)
}

/// The prototypes of the undeclared functions called in `calls`, each from
/// its first call.
pub open spec fn externs_from(m: IRModule, calls: Seq<(Seq<char>, Seq<IROperand>)>) -> Seq<SigView>
    decreases calls.len(),
{
    if calls.len() == 0 {
        Seq::empty()
    } else {
        let prev = externs_from(m, calls.drop_last());
        let c = calls.last();
        if is_extern(m, c.0) && sig_pos(prev, c.0) < 0 {
            prev.push(extern_sig(c.0, c.1))
        } else {
            prev
        }
    }
}

/// The prototypes of the undeclared functions that `m` calls.
pub open spec fn module_externs(m: IRModule) -> Seq<SigView> {
    externs_from(m, calls_in_functions(m.functions@))
}

/// The signature under which a function is defined in LLVM: its name, and
/// the LLVM types of its result and parameters.
pub open spec fn function_sig(f: IRFunction) -> SigView {
    (f.name@, llvm_type_spec(opt_text(f.return_type)), f.parameters@.map_values(
        |p: IRValue| llvm_type_spec(opt_text(p.ty)),
    ))
}

/// Every function of `m` can be defined: none has the name of a runtime
/// function or of an earlier function.
pub open spec fn definable(m: IRModule) -> bool {
    &&& forall|i: int| 0 <= i < m.functions@.len() ==> sig_pos(default_runtime(), #[trigger] m.functions@[i].name@) < 0
    &&& forall|i: int, j: int| 0 <= i < j < m.functions@.len() ==> m.functions@[i].name@ != m.functions@[j].name@
}

/// A call of `callee` with `nargs` arguments agrees with the definitions
/// `defs`, the prototypes `protos` and the runtime functions.
pub open spec fn call_fits(defs: Seq<SigView>, protos: Seq<SigView>, callee: Seq<char>, nargs: int) -> bool {
    if sig_pos(defs, callee) >= 0 {
        defs[sig_pos(defs, callee)].2.len() == nargs
    } else if sig_pos(protos, callee) >= 0 {
        protos[sig_pos(protos, callee)].2.len() == nargs
    } else {
        sig_pos(default_runtime(), callee) >= 0
    }
}

/// Every call in `m` agrees with its definitions and prototypes.
pub open spec fn calls_fit(m: IRModule) -> bool {
    let defs = m.functions@.map_values(|f: IRFunction| function_sig(f));
    forall|f: int, b: int, i: int|
        0 <= f < m.functions@.len() && 0 <= b < m.functions@[f].blocks@.len() && 0 <= i
            < m.functions@[f].blocks@[b].instructions@.len() ==> match (
        #[trigger] m.functions@[f].blocks@[b].instructions@[i]).kind {
            IRInstructionKind::Call { callee, arguments, .. } => call_fits(
                defs,
                module_externs(m),
                callee@,
                arguments@.len() as int,
            ),
            _ => true,
        }
}

/// The prototypes of the externs, none defined.
pub open spec fn undefined(ss: Seq<SigView>) -> Seq<(SigView, bool)> {
    ss.map_values(|s: SigView| (s, false))
}

/// The prototypes of `externs_from` have distinct names, each of an extern.
proof fn lemma_externs(m: IRModule, calls: Seq<(Seq<char>, Seq<IROperand>)>)
    ensures
        forall|i: int, j: int|
            0 <= i < j < externs_from(m, calls).len() ==> externs_from(m, calls)[i].0 != externs_from(m, calls)[j].0,
        forall|i: int| 0 <= i < externs_from(m, calls).len() ==> is_extern(m, #[trigger] externs_from(m, calls)[i].0),
    decreases calls.len(),
{
    if calls.len() > 0 {
        lemma_externs(m, calls.drop_last());
        let prev = externs_from(m, calls.drop_last());
        crate::codegen::context::lemma_sig_pos(prev, calls.last().0);
    }
}

/// The LLVM type assumed for an argument of a call of an undeclared function.
fn inferred_type(o: &IROperand) -> (r: &'static str)
    ensures
        r@ == operand_type(*o),
{
    operand_type_str(o)
}

/// Whether a list of prototypes holds one named `name`.
fn has_prototype(externs: &Vec<(String, String, Vec<String>)>, name: &str) -> (r: bool)
    ensures
        r == (sig_pos(sig_views(externs@), name@) >= 0),
{
    let ghost v = sig_views(externs@);
    let mut i: usize = 0;
    while i < externs.len()
        invariant
            0 <= i <= externs@.len(),
            v == sig_views(externs@),
            forall|j: int| 0 <= j < i ==> v[j].0 != name@,
        decreases externs@.len() - i,
    {
        if str_equal(externs[i].0.as_str(), name) {
            assert(v[i as int].0 == name@);
            proof {
                crate::codegen::context::lemma_sig_pos(v, name@);
            }
            return true;
        }
        i = i + 1;
    }
    proof {
        crate::codegen::context::lemma_sig_pos(v, name@);
        if sig_pos(v, name@) >= 0 {
            assert(v[sig_pos(v, name@)].0 == name@);
        }
    }
    false
}

/// Whether a list of signatures holds one named `name`.
fn names_signature(list: &Vec<(String, String, Vec<String>)>, name: &str) -> (r: bool)
    ensures
        r == (sig_pos(sig_views(list@), name@) >= 0),
{
    has_prototype(list, name)
}

/// Writes the declaration of `(name, ret, params)` after `out`.
fn push_declaration(out: &mut String, name: &String, ret: &String, params: &Vec<String>)
    ensures
        final(out)@ == old(out)@ + decl_line((name@, ret@, strs(params@))),
{
    push_str(out, "declare ");
    push_str(out, ret.as_str());
    push_str(out, " @");
    push_str(out, name.as_str());
    push_str(out, "(");
    let joined_params = join_strings(params, ", ");
    push_str(out, joined_params.as_str());
    push_str(out, ")\n");
}

impl LlvmTextBackend {
    /// Adds to `externs` the prototype of the call `(callee, arguments)` when
    /// it is the first call of an undeclared function.
    fn note_call(
        module: &IRModule,
        runtime: &Vec<(String, String, Vec<String>)>,
        externs: &mut Vec<(String, String, Vec<String>)>,
        callee: &String,
        arguments: &Vec<IROperand>,
    )
        requires
            sig_views(runtime@) == default_runtime(),
        ensures
            sig_views(final(externs)@) == ({
                let prev = sig_views(old(externs)@);
                if is_extern(*module, callee@) && sig_pos(prev, callee@) < 0 {
                    prev.push(extern_sig(callee@, arguments@))
                } else {
                    prev
                }
            }),
    {
        let defined = module.function(callee.as_str()).is_some();
        let in_runtime = names_signature(runtime, callee.as_str());
        if !defined && !in_runtime && !has_prototype(externs, callee.as_str()) {
            let ghost types = arguments@.map_values(|a: IROperand| operand_type(a));
            let mut params: Vec<String> = Vec::new();
            let mut any_double = false;
            let mut a: usize = 0;
            while a < arguments.len()
                invariant
                    0 <= a <= arguments@.len(),
                    types == arguments@.map_values(|a: IROperand| operand_type(a)),
                    strs(params@) == types.take(a as int),
                    params@.len() == a,
                    any_double == exists|i: int| 0 <= i < a && types[i] == "double"@,
                decreases arguments@.len() - a,
            {
                let t = inferred_type(&arguments[a]);
                assert(types[a as int] == t@);
                if str_equal(t, "double") {
                    any_double = true;
                }
                let ghost old_p = params@;
                params.push(string_from(t));
                assert(params@ == old_p.push(params@[a as int]));
                assert(strs(params@) =~= strs(old_p).push(t@));
                assert(strs(params@) =~= types.take(a + 1));
                assert(any_double == exists|i: int| 0 <= i < a + 1 && types[i] == "double"@) by {
                    if types[a as int] == "double"@ {
                        assert(0 <= a < a + 1 && types[a as int] == "double"@);
                    }
                }
                a = a + 1;
            }
            assert(types.take(a as int) =~= types);
            let ret = if any_double {
                string_from("double")
            } else {
                string_from("i64")
            };
            let ghost before = sig_views(externs@);
            externs.push((callee.clone(), ret, params));
            assert(sig_views(externs@) =~= before.push(extern_sig(callee@, arguments@)));
        }
    }

    /// The prototypes of the functions called in `module` that are neither
    /// defined in it nor runtime functions (see `module_externs`).
    fn extern_prototypes(module: &IRModule, llvm_module: &LlvmModule) -> (r: Vec<(String, String, Vec<String>)>)
        requires
            llvm_module.spec_runtime() == default_runtime(),
        ensures
            sig_views(r@) == module_externs(*module),
    {
        let mut externs: Vec<(String, String, Vec<String>)> = Vec::new();
        let runtime = llvm_module.runtime_decls();
        let ghost fs = module.functions@;
        let mut fi: usize = 0;
        assert(fs.take(0) =~= Seq::<IRFunction>::empty());
        while fi < module.functions.len()
            invariant
                0 <= fi <= fs.len(),
                fs == module.functions@,
                sig_views(runtime@) == default_runtime(),
                sig_views(externs@) == externs_from(*module, calls_in_functions(fs.take(fi as int))),
            decreases fs.len() - fi,
        {
            let func = &module.functions[fi];
            let ghost done = calls_in_functions(fs.take(fi as int));
            let ghost bs = func.blocks@;
            assert(fs.take(fi + 1).drop_last() == fs.take(fi as int));
            assert(fs.take(fi + 1).last() == fs[fi as int]);
            let mut bi: usize = 0;
            assert(bs.take(0) =~= Seq::<BasicBlock>::empty());
            assert(done + calls_in_blocks(bs.take(0)) =~= done);
            while bi < func.blocks.len()
                invariant
                    0 <= bi <= bs.len(),
                    bs == func.blocks@,
                    sig_views(runtime@) == default_runtime(),
                    sig_views(externs@) == externs_from(*module, done + calls_in_blocks(bs.take(bi as int))),
                decreases bs.len() - bi,
            {
                let block = &func.blocks[bi];
                let ghost before_block = done + calls_in_blocks(bs.take(bi as int));
                let ghost ins = block.instructions@;
                assert(bs.take(bi + 1).drop_last() == bs.take(bi as int));
                assert(bs.take(bi + 1).last() == bs[bi as int]);
                let mut ii: usize = 0;
                assert(ins.take(0) =~= Seq::<IRInstruction>::empty());
                assert(before_block + calls_in(ins.take(0)) =~= before_block);
                while ii < block.instructions.len()
                    invariant
                        0 <= ii <= ins.len(),
                        ins == block.instructions@,
                        sig_views(runtime@) == default_runtime(),
                        sig_views(externs@) == externs_from(*module, before_block + calls_in(ins.take(ii as int))),
                    decreases ins.len() - ii,
                {
                    let ghost prefix = before_block + calls_in(ins.take(ii as int));
                    assert(ins.take(ii + 1).drop_last() == ins.take(ii as int));
                    assert(ins.take(ii + 1).last() == ins[ii as int]);
                    match &block.instructions[ii].kind {
                        IRInstructionKind::Call { callee, arguments, .. } => {
                            let ghost c = (callee@, arguments@);
                            assert(before_block + calls_in(ins.take(ii + 1)) =~= prefix.push(c));
                            assert(prefix.push(c).drop_last() == prefix);
                            Self::note_call(module, runtime, &mut externs, callee, arguments);
                        },
                        _ => {
                            assert(before_block + calls_in(ins.take(ii + 1)) =~= prefix);
                        },
                    }
                    ii = ii + 1;
                }
                assert(ins.take(ii as int) == ins);
                assert(before_block + calls_in(ins) =~= done + calls_in_blocks(bs.take(bi + 1)));
                bi = bi + 1;
            }
            assert(bs.take(bi as int) == bs);
            fi = fi + 1;
        }
        assert(fs.take(fi as int) == fs);
        externs
    }
}

impl CodegenBackend for LlvmTextBackend {
    fn backend_name(&self) -> (r: &'static str)
        ensures
            r@ == "llvm-text"@,
    {
        "llvm-text"
    }

    /// Emits the module as LLVM IR text: the header, the runtime
    /// declarations, the prototypes of the other functions it calls (see
    /// `module_externs`), and the definitions of its functions.
    ///
    /// Only LLVM IR text is supported; the module must be valid, its
    /// functions definable (see `definable`) and written without failure,
    /// and its calls must fit the definitions and prototypes (see
    /// `calls_fit`).
    fn emit_module(&self, module: &IRModule, context: &CodegenContext) -> (r: CodegenResult<CodegenArtifact>)
        ensures
            !(context.target is LlvmIr) ==> (r matches Err(CodegenError::BackendFailure { message })
                && message@ == "backend 'llvm-text' only supports LLVM IR text output"@),
            context.target is LlvmIr && !module.valid() ==> (r matches Err(CodegenError::InvalidModule { module: n, .. })
                && n@ == module.name@),
            context.target is LlvmIr && module.valid() && !definable(*module) ==> (r matches Err(
                CodegenError::BackendFailure { .. },
            )),
            context.target is LlvmIr && module.valid() && definable(*module) ==> match definitions_render(
                *module,
                module.functions@,
            ) {
                Rendered::Fail(b, msg) => r matches Err(CodegenError::UnsupportedInstruction { block, message, .. })
                    && block@ == b && message@ == msg,
                Rendered::Text(d) => if calls_fit(*module) {
                    &&& r matches Ok(a)
                    &&& a.target is LlvmIr
                    &&& a.output matches CodegenOutput::Text(t)
                    &&& t@ == module_header(*context) + decl_lines(default_runtime()) + "\n"@ + decl_lines(
                        module_externs(*module),
                    ) + "\n"@ + d
                } else {
                    r matches Err(CodegenError::InvalidModule { module: n, .. }) && n@ == module.name@
                },
            },
    {
        match context.target {
            CodegenTarget::LlvmIr => {},
            _ => {
                return Err(
                    CodegenError::BackendFailure {
                        message: string_from("backend 'llvm-text' only supports LLVM IR text output"),
                    },
                );
            },
        }
        match module.validate() {
            Ok(()) => {},
            Err(errors) => {
                return Err(
                    CodegenError::InvalidModule { module: module.name.clone(), message: join_strings(&errors, "; ") },
                );
            },
        }
        let mut llvm_module = match self.lifecycle.create_module(context.module_name.clone()) {
            Ok(m) => m,
            Err(e) => {
                return Err(e);
            },
        };
        let ghost ctx_id = llvm_module.spec_context_id();
        let externs = Self::extern_prototypes(module, &llvm_module);
        let ghost ext = module_externs(*module);
        proof {
            lemma_externs(*module, calls_in_functions(module.functions@));
        }
        let mut k: usize = 0;
        assert(undefined(ext.take(0)) =~= Seq::<(SigView, bool)>::empty());
        while k < externs.len()
            invariant
                context.target is LlvmIr,
                module.valid(),
                0 <= k <= externs@.len(),
                sig_views(externs@) == ext,
                ext == module_externs(*module),
                forall|i: int, j: int| 0 <= i < j < ext.len() ==> ext[i].0 != ext[j].0,
                forall|i: int| 0 <= i < ext.len() ==> is_extern(*module, #[trigger] ext[i].0),
                llvm_module.wf(),
                !llvm_module.spec_finalized(),
                llvm_module.spec_context_id() == ctx_id,
                llvm_module.spec_runtime() == default_runtime(),
                llvm_module.spec_symbols().len() == 0,
                llvm_module.spec_prototypes() == undefined(ext.take(k as int)),
            decreases externs@.len() - k,
        {
            proof {
                crate::codegen::context::lemma_sig_pos(default_runtime(), ext[k as int].0);
                crate::codegen::context::lemma_sig_pos(llvm_module.spec_symbols(), ext[k as int].0);
                crate::codegen::context::lemma_proto_index(llvm_module.spec_prototypes(), ext[k as int].0);
                assert(ext[k as int] == (externs@[k as int].0@, externs@[k as int].1@, strs(externs@[k as int].2@)));
                assert forall|i: int| 0 <= i < llvm_module.spec_prototypes().len() implies llvm_module.spec_prototypes()[i].0.0
                    != ext[k as int].0 by {
                    assert(llvm_module.spec_prototypes()[i] == (ext[i], false));
                }
            }
            let _ = llvm_module.declare_symbol(
                externs[k].0.clone(),
                externs[k].1.clone(),
                copy_strings(&externs[k].2),
            );
            assert(undefined(ext.take(k + 1)) =~= undefined(ext.take(k as int)).push((ext[k as int], false)));
            k = k + 1;
        }
        assert(ext.take(k as int) =~= ext);
        let ghost fs = module.functions@;
        let ghost defs = fs.map_values(|f: IRFunction| function_sig(f));
        let mut fi: usize = 0;
        assert(defs.take(0) =~= Seq::<SigView>::empty());
        while fi < module.functions.len()
            invariant
                0 <= fi <= fs.len(),
                fs == module.functions@,
                defs == fs.map_values(|f: IRFunction| function_sig(f)),
                context.target is LlvmIr,
                module.valid(),
                ext == module_externs(*module),
                forall|i: int| 0 <= i < ext.len() ==> is_extern(*module, #[trigger] ext[i].0),
                forall|i: int, j: int| 0 <= i < j < ext.len() ==> ext[i].0 != ext[j].0,
                llvm_module.wf(),
                !llvm_module.spec_finalized(),
                llvm_module.spec_context_id() == ctx_id,
                llvm_module.spec_runtime() == default_runtime(),
                llvm_module.spec_prototypes() == undefined(ext),
                llvm_module.spec_symbols() == defs.take(fi as int),
                forall|i: int| 0 <= i < fi ==> sig_pos(default_runtime(), #[trigger] fs[i].name@) < 0,
                forall|i: int, j: int| 0 <= i < j < fi ==> fs[i].name@ != fs[j].name@,
            decreases fs.len() - fi,
        {
            let function = &module.functions[fi];
            let return_type = Self::type_of_opt(&function.return_type);
            let ghost pts = function.parameters@.map_values(|p: IRValue| llvm_type_spec(opt_text(p.ty)));
            let mut param_types: Vec<String> = Vec::new();
            let mut p: usize = 0;
            while p < function.parameters.len()
                invariant
                    0 <= p <= function.parameters@.len(),
                    pts == function.parameters@.map_values(|p: IRValue| llvm_type_spec(opt_text(p.ty))),
                    strs(param_types@) == pts.take(p as int),
                    param_types@.len() == p,
                decreases function.parameters@.len() - p,
            {
                let t = Self::type_of_opt(&function.parameters[p].ty);
                assert(pts[p as int] == t@);
                let ghost old_p = param_types@;
                let ghost tv = t@;
                param_types.push(t);
                assert(param_types@ == old_p.push(param_types@[p as int]));
                assert(strs(param_types@) =~= strs(old_p).push(tv));
                assert(strs(param_types@) =~= pts.take(p + 1));
                p = p + 1;
            }
            assert(pts.take(p as int) =~= pts);
            let ghost old_symbols = llvm_module.spec_symbols();
            proof {
                let name = fs[fi as int].name@;
                crate::codegen::context::lemma_sig_pos(default_runtime(), name);
                crate::codegen::context::lemma_sig_pos(llvm_module.spec_symbols(), name);
                crate::codegen::context::lemma_proto_index(llvm_module.spec_prototypes(), name);
                crate::ir::module::lemma_first_pos(module.function_names(), name);
                assert(module.function_names()[fi as int] == name);
                assert forall|i: int| 0 <= i < llvm_module.spec_prototypes().len() implies llvm_module.spec_prototypes()[i].0.0
                    != name by {
                    assert(llvm_module.spec_prototypes()[i] == (ext[i], false));
                    assert(is_extern(*module, ext[i].0));
                }
                assert forall|i: int| 0 <= i < llvm_module.spec_symbols().len() implies llvm_module.spec_symbols()[i].0
                    == fs[i].name@ by {
                    assert(llvm_module.spec_symbols()[i] == defs[i]);
                }
            }
            match llvm_module.define_symbol(function.name.clone(), return_type, param_types) {
                Ok(()) => {
                    proof {
                        let name = fs[fi as int].name@;
                        assert forall|i: int, j: int| 0 <= i < j < fi + 1 implies fs[i].name@ != fs[j].name@ by {
                            if j == fi {
                                assert(old_symbols[i].0 == fs[i].name@);
                            }
                        }
                    }
                },
                Err(e) => {
                    proof {
                        let name = fs[fi as int].name@;
                        if sig_pos(default_runtime(), name) < 0 {
                            let j = sig_pos(llvm_module.spec_symbols(), name);
                            assert(llvm_module.spec_symbols()[j].0 == fs[j].name@);
                            assert(fs[j].name@ == fs[fi as int].name@);
                        }
                        assert(!definable(*module));
                    }
                    return Err(CodegenError::BackendFailure { message: e });
                },
            }
            assert(defs.take(fi + 1) =~= defs.take(fi as int).push(defs[fi as int]));
            fi = fi + 1;
        }
        assert(defs.take(fi as int) =~= defs);
        assert(definable(*module));
        let mut output = string_from("; ModuleID = '");
        push_str(&mut output, context.module_name.as_str());
        push_str(&mut output, "'\n");
        push_str(&mut output, "target triple = \"");
        push_str(&mut output, context.resolved_target_triple());
        push_str(&mut output, "\"\n");
        push_str(&mut output, "target datalayout = \"");
        push_str(&mut output, context.resolved_data_layout());
        push_str(&mut output, "\"\n");
        push_str(&mut output, "\n");
        let ghost header = output@;
        let runtime = llvm_module.runtime_decls();
        let ghost rt = sig_views(runtime@);
        let mut k: usize = 0;
        while k < runtime.len()
            invariant
                context.target is LlvmIr,
                module.valid(),
                definable(*module),
                ext == module_externs(*module),
                defs == module.functions@.map_values(|f: IRFunction| function_sig(f)),
                llvm_module.wf(),
                llvm_module.spec_context_id() == ctx_id,
                llvm_module.spec_runtime() == default_runtime(),
                llvm_module.spec_prototypes() == undefined(ext),
                llvm_module.spec_symbols() == defs,
                0 <= k <= runtime@.len(),
                rt == sig_views(runtime@),
                output@ == header + decl_lines(rt.take(k as int)),
            decreases runtime@.len() - k,
        {
            assert(rt.take(k + 1).drop_last() == rt.take(k as int));
            assert(rt.take(k + 1).last() == rt[k as int]);
            push_declaration(&mut output, &runtime[k].0, &runtime[k].1, &runtime[k].2);
            k = k + 1;
        }
        assert(rt.take(k as int) == rt);
        push_str(&mut output, "\n");
        let ghost before_protos = output@;
        let protos = llvm_module.prototypes();
        assert(crate::codegen::context::proto_views(protos@).len() == protos@.len());
        let mut k: usize = 0;
        while k < protos.len()
            invariant
                context.target is LlvmIr,
                module.valid(),
                definable(*module),
                ext == module_externs(*module),
                defs == module.functions@.map_values(|f: IRFunction| function_sig(f)),
                llvm_module.wf(),
                llvm_module.spec_context_id() == ctx_id,
                llvm_module.spec_runtime() == default_runtime(),
                llvm_module.spec_prototypes() == undefined(ext),
                llvm_module.spec_symbols() == defs,
                0 <= k <= protos@.len(),
                protos@.len() == ext.len(),
                crate::codegen::context::proto_views(protos@) == undefined(ext),
                output@ == before_protos + decl_lines(ext.take(k as int)),
            decreases protos@.len() - k,
        {
            assert(ext.take(k + 1).drop_last() == ext.take(k as int));
            assert(ext.take(k + 1).last() == ext[k as int]);
            assert(crate::codegen::context::proto_views(protos@)[k as int] == (ext[k as int], false));
            if !protos[k].3 {
                push_declaration(&mut output, &protos[k].0, &protos[k].1, &protos[k].2);
            }
            k = k + 1;
        }
        assert(ext.take(k as int) == ext);
        push_str(&mut output, "\n");
        let ghost before_defs = output@;
        let mut fi: usize = 0;
        assert(module.functions@.take(0) =~= Seq::<IRFunction>::empty());
        while fi < module.functions.len()
            invariant
                context.target is LlvmIr,
                module.valid(),
                definable(*module),
                ext == module_externs(*module),
                defs == module.functions@.map_values(|f: IRFunction| function_sig(f)),
                llvm_module.wf(),
                llvm_module.spec_context_id() == ctx_id,
                llvm_module.spec_runtime() == default_runtime(),
                llvm_module.spec_prototypes() == undefined(ext),
                llvm_module.spec_symbols() == defs,
                0 <= fi <= module.functions@.len(),
                definitions_render(*module, module.functions@.take(fi as int)) matches Rendered::Text(d) && output@
                    == before_defs + d,
            decreases module.functions@.len() - fi,
        {
            assert(module.functions@.take(fi + 1).drop_last() == module.functions@.take(fi as int));
            assert(module.functions@.take(fi + 1).last() == module.functions@[fi as int]);
            proof {
                lemma_first_pos_present(module.function_names(), fi as int);
            }
            let text = match self.render_function(module, module.functions[fi].name.as_str()) {
                Ok(t) => t,
                Err(e) => {
                    proof {
                        lemma_definitions_fail(*module, module.functions@, fi as int);
                    }
                    return Err(e);
                },
            };
            push_str(&mut output, text.as_str());
            fi = fi + 1;
        }
        assert(module.functions@.take(fi as int) == module.functions@);
        proof {
            assert(llvm_module.spec_symbols().len() > 0);
            lemma_calls_agree(llvm_module, *module, defs, ext);
        }
        match self.lifecycle.validate_full_module(&llvm_module, module) {
            Ok(()) => {},
            Err(e) => {
                let mut message = string_from("validation failed: ");
                let shown = e.render();
                push_str(&mut message, shown.as_str());
                return Err(CodegenError::InvalidModule { module: module.name.clone(), message });
            },
        }
        proof {
            let d = definitions_render(*module, module.functions@)->Text_0;
            assert(header == module_header(*context));
            assert(output@ =~= module_header(*context) + decl_lines(default_runtime()) + "\n"@ + decl_lines(ext) + "\n"@
                + d);
        }
        Ok(CodegenArtifact::text(CodegenTarget::LlvmIr, output))
    }
}

/// A definition that cannot be written makes the definitions fail with its
/// block and message, when those before it are written.
proof fn lemma_definitions_fail(m: IRModule, fs: Seq<IRFunction>, i: int)
    requires
        0 <= i < fs.len(),
        definitions_render(m, fs.take(i)) is Text,
        function_render(m, m.functions@[first_pos(m.function_names(), fs[i].name@)]) is Fail,
    ensures
        definitions_render(m, fs) is Fail,
        definitions_render(m, fs)->Fail_0 == function_render(m, m.functions@[first_pos(m.function_names(), fs[i].name@)])->Fail_0,
        definitions_render(m, fs)->Fail_1 == function_render(m, m.functions@[first_pos(m.function_names(), fs[i].name@)])->Fail_1,
    decreases fs.len() - i,
{
    if i == fs.len() - 1 {
        assert(fs.drop_last() == fs.take(i));
    } else {
        assert(fs.drop_last().take(i) == fs.take(i));
        assert(fs.drop_last()[i] == fs[i]);
        lemma_definitions_fail(m, fs.drop_last(), i);
    }
}

/// With every function defined and the externs declared, the module's calls
/// agree with it exactly when they fit (see `calls_fit`).
proof fn lemma_calls_agree(lm: LlvmModule, m: IRModule, defs: Seq<SigView>, ext: Seq<SigView>)
    requires
        lm.spec_symbols() == defs,
        defs == m.functions@.map_values(|f: IRFunction| function_sig(f)),
        lm.spec_prototypes() == undefined(ext),
        ext == module_externs(m),
        lm.spec_runtime() == default_runtime(),
    ensures
        calls_agree(lm, m) <==> calls_fit(m),
{
    assert forall|name: Seq<char>| proto_index(lm.spec_prototypes(), name) == sig_pos(ext, name) by {
        lemma_proto_sig(ext, name);
    }
    assert forall|name: Seq<char>, n: int| call_agrees(lm, name, n) == call_fits(defs, ext, name, n) by {
        let pi = proto_index(lm.spec_prototypes(), name);
        crate::codegen::context::lemma_sig_pos(ext, name);
        if pi >= 0 {
            assert(lm.spec_prototypes()[pi] == (ext[pi], false));
        }
    }
}

/// Looking a name up among undefined prototypes finds it where it stands
/// among the signatures.
proof fn lemma_proto_sig(ext: Seq<SigView>, name: Seq<char>)
    ensures
        proto_index(undefined(ext), name) == sig_pos(ext, name),
    decreases ext.len(),
{
    if ext.len() > 0 {
        assert(undefined(ext).drop_last() =~= undefined(ext.drop_last()));
        lemma_proto_sig(ext.drop_last(), name);
    }
}

/// The name of the function at `i` has a first position.
proof fn lemma_first_pos_present(names: Seq<Seq<char>>, i: int)
    requires
        0 <= i < names.len(),
    ensures
        0 <= first_pos(names, names[i]) < names.len(),
        names[first_pos(names, names[i])] == names[i],
{
    crate::ir::module::lemma_first_pos(names, names[i]);
}

} // verus!
