use hulk_compiler::ir::{
    run_ssa_renaming, BasicBlock, BasicBlockId, IRBinaryOp, IRFunction, IRInstruction, IRInstructionKind, IRModule,
    IROperand, IRValue, IRValueId, SSAValueGenerator,
};

fn id(name: &str) -> IRValueId {
    IRValueId::new(name.to_string())
}

fn value(name: &str) -> IROperand {
    IROperand::Value(id(name))
}

fn assign(target: &str, v: IROperand, original: Option<&str>) -> IRInstruction {
    IRInstruction::new(IRInstructionKind::Assign {
        target: id(target),
        value: v,
        original: original.map(|s| s.to_string()),
    })
}

fn jump(to: &str) -> IRInstruction {
    IRInstruction::new(IRInstructionKind::Jump { target: BasicBlockId::new(to.to_string()) })
}

fn ret(v: IROperand) -> IRInstruction {
    IRInstruction::new(IRInstructionKind::Return(Some(v)))
}

fn operand_text(o: &IROperand) -> String {
    match o {
        IROperand::Value(v) => v.0.clone(),
        IROperand::Integer(i) => format!("{}", i),
        IROperand::Float(bits) => format!("f{}", bits),
        IROperand::Boolean(b) => format!("{}", b),
        IROperand::Text(t) => format!("{:?}", t),
    }
}

/// A compact writing of an instruction, for comparisons.
fn text(i: &IRInstruction) -> String {
    match &i.kind {
        IRInstructionKind::Assign { target, value, original } => {
            format!("{} = {} ({:?})", target.0, operand_text(value), original)
        }
        IRInstructionKind::Binary { target, op, left, right } => {
            format!("{} = {:?} {} {}", target.0, op, operand_text(left), operand_text(right))
        }
        IRInstructionKind::Unary { target, op, operand } => {
            format!("{} = {:?} {}", target.0, op, operand_text(operand))
        }
        IRInstructionKind::Phi { target, incoming, original } => {
            let parts: Vec<String> = incoming.iter().map(|(v, b)| format!("{}@{}", v.0, b.0)).collect();
            format!("{} = phi [{}] ({:?})", target.0, parts.join(", "), original)
        }
        IRInstructionKind::Jump { target } => format!("jump {}", target.0),
        IRInstructionKind::Branch { condition, then_block, else_block } => {
            format!("branch {} {} {}", operand_text(condition), then_block.0, else_block.0)
        }
        IRInstructionKind::Return(Some(o)) => format!("return {}", operand_text(o)),
        IRInstructionKind::Return(None) => "return".to_string(),
        IRInstructionKind::Call { target, callee, arguments, original } => {
            let args: Vec<String> = arguments.iter().map(operand_text).collect();
            let t = match target {
                Some(t) => t.0.clone(),
                None => "_".to_string(),
            };
            format!("{} = call {}({}) ({:?})", t, callee, args.join(", "), original)
        }
        IRInstructionKind::Nop => "nop".to_string(),
    }
}

fn block_text(b: &BasicBlock) -> Vec<String> {
    b.instructions.iter().map(text).collect()
}

fn link(blocks: &mut [BasicBlock], from: usize, to: usize) {
    let to_id = blocks[to].id.clone();
    let from_id = blocks[from].id.clone();
    blocks[from].add_successor(to_id);
    blocks[to].add_predecessor(from_id);
}

fn function_with(name: &str, params: &[&str], blocks: Vec<BasicBlock>) -> IRFunction {
    let mut f = IRFunction::new(name.to_string());
    for p in params {
        f.parameters.push(IRValue::parameter(p.to_string()));
    }
    for b in blocks {
        f.add_block(b);
    }
    f
}

fn single(f: IRFunction) -> IRModule {
    let mut m = IRModule::new("m".to_string());
    m.add_function(f);
    m
}

/// The values each instruction of the module defines, in order.
fn definitions(m: &IRModule) -> Vec<String> {
    let mut out = Vec::new();
    for f in &m.functions {
        for b in &f.blocks {
            for i in &b.instructions {
                if let Some(v) = i.defines_value() {
                    out.push(v.0.clone());
                }
            }
        }
    }
    out
}

fn all_distinct(names: &[String]) -> bool {
    let mut seen = std::collections::HashSet::new();
    names.iter().all(|n| seen.insert(n.clone()))
}

#[test]
fn generator_hands_out_numbered_names() {
    let mut g = SSAValueGenerator::new();
    assert_eq!(g.next_value(), "%t0");
    assert_eq!(g.next_value(), "%t1");
    assert_eq!(g.next_parameter(), "%p0");
    assert_eq!(g.next_value(), "%t2");
    assert_eq!(g.next_parameter(), "%p1");
}

#[test]
fn straight_line_code_is_renamed_in_order() {
    let mut entry = BasicBlock::new("entry".to_string());
    entry.push_instruction(assign("a", value("x"), Some("a")));
    entry.push_instruction(IRInstruction::new(IRInstructionKind::Binary {
        target: id("b"),
        op: IRBinaryOp::Add,
        left: value("a"),
        right: IROperand::Integer(1),
    }));
    entry.push_instruction(ret(value("b")));
    let mut m = single(function_with("f", &["x"], vec![entry]));

    run_ssa_renaming(&mut m);

    let f = &m.functions[0];
    assert_eq!(f.parameters[0].id.0, "%p0");
    assert_eq!(
        block_text(&f.blocks[0]),
        vec!["%t0 = %p0 (Some(\"a\"))", "%t1 = Add %t0 1", "return %t1"]
    );
}

#[test]
fn diamond_gets_a_phi_at_the_merge() {
    let mut blocks = vec![
        BasicBlock::new("entry".to_string()),
        BasicBlock::new("then".to_string()),
        BasicBlock::new("else".to_string()),
        BasicBlock::new("merge".to_string()),
    ];
    link(&mut blocks, 0, 1);
    link(&mut blocks, 0, 2);
    link(&mut blocks, 1, 3);
    link(&mut blocks, 2, 3);
    blocks[0].push_instruction(assign("c", IROperand::Boolean(true), Some("c")));
    blocks[0].push_instruction(IRInstruction::new(IRInstructionKind::Branch {
        condition: value("c"),
        then_block: BasicBlockId::new("then".to_string()),
        else_block: BasicBlockId::new("else".to_string()),
    }));
    blocks[1].push_instruction(assign("v1", IROperand::Integer(1), Some("v")));
    blocks[1].push_instruction(jump("merge"));
    blocks[2].push_instruction(assign("v2", IROperand::Integer(2), Some("v")));
    blocks[2].push_instruction(jump("merge"));
    blocks[3].push_instruction(ret(value("v1")));
    let mut m = single(function_with("f", &[], blocks));

    run_ssa_renaming(&mut m);

    let f = &m.functions[0];
    assert_eq!(block_text(&f.blocks[0]), vec!["%t0 = true (Some(\"c\"))", "branch %t0 then else"]);
    assert_eq!(block_text(&f.blocks[1]), vec!["%t1 = 1 (Some(\"v\"))", "jump merge"]);
    assert_eq!(block_text(&f.blocks[2]), vec!["%t2 = 2 (Some(\"v\"))", "jump merge"]);
    assert_eq!(
        block_text(&f.blocks[3]),
        vec!["%t4 = phi [%t3@then, %t3@else] (Some(\"v\"))", "return %t1"]
    );
    assert!(all_distinct(&definitions(&m)));
}

#[test]
fn loop_header_gets_a_phi_for_a_variable_updated_in_the_body() {
    let mut blocks = vec![
        BasicBlock::new("entry".to_string()),
        BasicBlock::new("header".to_string()),
        BasicBlock::new("body".to_string()),
        BasicBlock::new("exit".to_string()),
    ];
    link(&mut blocks, 0, 1);
    link(&mut blocks, 1, 2);
    link(&mut blocks, 1, 3);
    link(&mut blocks, 2, 1);
    blocks[0].push_instruction(assign("i0", IROperand::Integer(0), Some("i")));
    blocks[0].push_instruction(jump("header"));
    blocks[1].push_instruction(IRInstruction::new(IRInstructionKind::Branch {
        condition: IROperand::Boolean(true),
        then_block: BasicBlockId::new("body".to_string()),
        else_block: BasicBlockId::new("exit".to_string()),
    }));
    blocks[2].push_instruction(assign("i1", IROperand::Integer(1), Some("i")));
    blocks[2].push_instruction(jump("header"));
    blocks[3].push_instruction(IRInstruction::new(IRInstructionKind::Return(None)));
    let mut m = single(function_with("f", &[], blocks));

    run_ssa_renaming(&mut m);

    let f = &m.functions[0];
    assert_eq!(f.blocks[1].instructions.len(), 2);
    assert_eq!(block_text(&f.blocks[1])[0], "%t2 = phi [%t1@entry, %t1@body] (Some(\"i\"))");
    assert_eq!(block_text(&f.blocks[2]), vec!["%t3 = 1 (Some(\"i\"))", "jump header"]);
    assert_eq!(block_text(&f.blocks[3]), vec!["return"]);
    assert!(all_distinct(&definitions(&m)));
}

#[test]
fn parameters_are_renamed_without_blocks() {
    let mut m = single(function_with("f", &["a", "b", "c"], vec![]));
    run_ssa_renaming(&mut m);
    let names: Vec<String> = m.functions[0].parameters.iter().map(|p| p.id.0.clone()).collect();
    assert_eq!(names, vec!["%p0", "%p1", "%p2"]);
    assert!(m.functions[0].blocks.is_empty());
}

#[test]
fn each_function_counts_from_zero() {
    let mut first = BasicBlock::new("entry".to_string());
    first.push_instruction(assign("x", IROperand::Integer(1), None));
    first.push_instruction(ret(value("x")));
    let mut second = BasicBlock::new("entry".to_string());
    second.push_instruction(IRInstruction::new(IRInstructionKind::Call {
        target: Some(id("r")),
        callee: "print".to_string(),
        arguments: vec![value("unknown"), IROperand::Integer(2)],
        original: None,
    }));
    second.push_instruction(ret(value("r")));
    let mut m = IRModule::new("m".to_string());
    m.add_function(function_with("f", &[], vec![first]));
    m.add_function(function_with("g", &[], vec![second]));

    run_ssa_renaming(&mut m);

    assert_eq!(block_text(&m.functions[0].blocks[0]), vec!["%t0 = 1 (None)", "return %t0"]);
    assert_eq!(
        block_text(&m.functions[1].blocks[0]),
        vec!["%t1 = call print(%t0, 2) (None)", "return %t1"]
    );
}

#[test]
fn a_value_redefined_is_given_a_new_name_each_time() {
    let mut entry = BasicBlock::new("entry".to_string());
    entry.push_instruction(assign("x", IROperand::Integer(1), None));
    entry.push_instruction(assign("x", value("x"), None));
    entry.push_instruction(ret(value("x")));
    let mut m = single(function_with("f", &[], vec![entry]));
    run_ssa_renaming(&mut m);
    assert_eq!(
        block_text(&m.functions[0].blocks[0]),
        vec!["%t0 = 1 (None)", "%t1 = %t0 (None)", "return %t1"]
    );
    assert!(all_distinct(&definitions(&m)));
}
