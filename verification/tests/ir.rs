use hulk_compiler::ir::block::ControlFlowGraph;
use hulk_compiler::ir::{
    BasicBlock, BasicBlockId, IRBinaryOp, IRFunction, IRInstruction, IRInstructionKind, IRModule, IRNaming,
    IROperand, IRValue, IRValueId, IRValueKind,
};

#[test]
fn naming_helper_uses_stable_prefixes() {
    assert_eq!(IRNaming::temporary_name(3), "%t3");
    assert_eq!(IRNaming::basic_block_name(2), "bb2");
    assert_eq!(IRNaming::module_name("sample"), "module::sample");
}

#[test]
fn value_constructors_set_expected_kinds() {
    let temp = IRValue::temporary("%t0".to_string());
    let parameter = IRValue::parameter("x".to_string());
    let constant = IRValue::constant("c0".to_string());
    let named = IRValue::named("field".to_string());
    let phi = IRValue::phi("%p0".to_string());

    assert!(temp.is_temporary());
    assert!(parameter.is_parameter());
    assert!(constant.is_constant());
    assert!(named.kind == IRValueKind::Named);
    assert!(phi.is_phi());
}

#[test]
fn cfg_traversals() {
    let mut cfg = ControlFlowGraph::new();

    let b1 = cfg.create_block("bb1");
    let b2 = cfg.create_block("bb2");
    let b3 = cfg.create_block("bb3");
    let b4 = cfg.create_block("bb4");

    cfg.add_edge(&b1, &b2);
    cfg.add_edge(&b1, &b3);
    cfg.add_edge(&b2, &b4);
    cfg.add_edge(&b3, &b4);

    let dfs = cfg.dfs_traversal();
    assert_eq!(dfs[0], b1);
    assert_eq!(dfs.len(), 4);
    assert!(dfs.contains(&b2) && dfs.contains(&b3) && dfs.contains(&b4));

    let bfs = cfg.bfs_traversal();
    assert_eq!(bfs[0], b1);
    assert!(bfs[1] == b2 || bfs[1] == b3);
    assert!(bfs[2] == b2 || bfs[2] == b3);
    assert_eq!(bfs[3], b4);
}

#[test]
fn naming_of_parameters_and_functions() {
    assert_eq!(IRNaming::parameter_name(0), "%p0");
    assert_eq!(IRNaming::parameter_name(12), "%p12");
    assert_eq!(IRNaming::function_name("main"), "main");
    assert_eq!(IRNaming::temporary_name(105), "%t105");
}

#[test]
fn value_display_and_dependencies() {
    let mut v = IRValue::temporary("%t1".to_string()).with_type("Number".to_string());
    assert_eq!(v.fmt_display(), "%t1: temp (Number)");
    v.add_dependency(IRValueId::new("%t0".to_string()));
    v.add_dependency(IRValueId::new("%p0".to_string()));
    v.add_dependency(IRValueId::new("%t0".to_string()));
    assert_eq!(v.dependency_count(), 2);
    assert!(v.depends_on(&IRValueId::new("%p0".to_string())));
    assert!(!v.depends_on(&IRValueId::new("%t9".to_string())));
    assert_eq!(v.fmt_display(), "%t1: temp (Number) [deps: %t0, %p0]");
    let c = IRValue::constant("c".to_string());
    assert_eq!(c.fmt_display(), "c: const (?)");
    assert!(!c.has_dependencies());
}

#[test]
fn instruction_defines_value_for_assignment() {
    let instruction = IRInstruction::new(IRInstructionKind::Binary {
        target: IRValueId::new("%t0".to_string()),
        op: IRBinaryOp::Add,
        left: IROperand::Integer(1),
        right: IROperand::Integer(2),
    });

    assert!(instruction.defines_value().is_some());
    assert_eq!(instruction.defines_value().unwrap().0, "%t0");
    assert!(!instruction.is_terminator());
    let ret = IRInstruction::new(IRInstructionKind::Return(Some(IROperand::Value(IRValueId::new("%t0".to_string())))));
    assert!(ret.is_terminator());
    assert_eq!(ret.used_values(), vec![IRValueId::new("%t0".to_string())]);
}

#[test]
fn cfg_basic_linking_and_validation() {
    let mut cfg = ControlFlowGraph::new();
    let b1 = cfg.create_block("bb1");
    let b2 = cfg.create_block("bb2");
    let b3 = cfg.create_block("bb3");
    cfg.add_edge(&b1, &b2);
    cfg.add_edge(&b2, &b3);
    assert!(cfg.validate().is_ok());
    assert_eq!(cfg.successors(&b1).unwrap(), std::slice::from_ref(&b2));
    assert_eq!(cfg.predecessors(&b2).unwrap(), std::slice::from_ref(&b1));
    assert_eq!(cfg.successors(&b2).unwrap(), std::slice::from_ref(&b3));
    assert_eq!(cfg.predecessors(&b3).unwrap(), std::slice::from_ref(&b2));
}

#[test]
fn cfg_build_if_else() {
    let mut cfg = ControlFlowGraph::new();
    let head = cfg.create_block("head");
    let (then_b, else_b, merge) = cfg.build_if_else(&head, "then", "else", "merge");
    assert!(cfg.validate().is_ok());
    let succs = cfg.successors(&head).unwrap();
    assert!(succs.contains(&then_b));
    assert!(succs.contains(&else_b));
    assert_eq!(cfg.successors(&then_b).unwrap(), std::slice::from_ref(&merge));
    assert_eq!(cfg.successors(&else_b).unwrap(), std::slice::from_ref(&merge));
}

#[test]
fn cfg_build_loop() {
    let mut cfg = ControlFlowGraph::new();
    let head = cfg.create_block("head");
    let (cond, body, exit) = cfg.build_loop(&head, "cond", "body", "exit");
    assert!(cfg.validate().is_ok());
    assert_eq!(cfg.successors(&head).unwrap(), std::slice::from_ref(&cond));
    let cond_succs = cfg.successors(&cond).unwrap();
    assert!(cond_succs.contains(&body));
    assert!(cond_succs.contains(&exit));
    assert_eq!(cfg.successors(&body).unwrap(), std::slice::from_ref(&cond));
}

#[test]
fn cfg_validate_rejects_unreachable_blocks() {
    let mut cfg = ControlFlowGraph::new();
    let entry = cfg.create_block("entry");
    let _orphan = cfg.create_block("orphan");
    let errors = cfg.validate().expect_err("unreachable blocks must fail validation");
    assert!(errors.iter().any(|error| error.contains("unreachable")));
    assert_eq!(cfg.entry, Some(entry));
}

#[test]
fn cfg_edges_are_not_duplicated_and_unknown_blocks_ignored() {
    let mut cfg = ControlFlowGraph::new();
    let a = cfg.create_block("a");
    let b = cfg.create_block("b");
    cfg.add_edge(&a, &b);
    cfg.add_edge(&a, &b);
    cfg.add_edge(&a, &BasicBlockId::new("ghost".to_string()));
    assert_eq!(cfg.successors(&a).unwrap().len(), 1);
    assert!(cfg.successors(&BasicBlockId::new("ghost".to_string())).is_none());
    let again = cfg.create_block("a");
    assert_eq!(again, a);
    assert_eq!(cfg.dfs_traversal().len(), 2);
}

fn assign(target: &str, value: IROperand) -> IRInstruction {
    IRInstruction::new(IRInstructionKind::Assign { target: IRValueId::new(target.to_string()), value, original: None })
}

fn ret_value(name: &str) -> IRInstruction {
    IRInstruction::new(IRInstructionKind::Return(Some(IROperand::Value(IRValueId::new(name.to_string())))))
}

#[test]
fn module_validate_accepts_well_formed_ir() {
    let mut module = IRModule::new("sample".to_string());
    let mut function = IRFunction::new("main".to_string());
    let mut block = BasicBlock::new("entry".to_string());
    block.push_instruction(assign("%t0", IROperand::Integer(1)));
    block.push_instruction(ret_value("%t0"));
    function.add_block(block);
    module.add_function(function);
    assert!(module.validate().is_ok());
}

#[test]
fn module_validate_rejects_duplicate_ssa_definitions() {
    let mut module = IRModule::new("sample".to_string());
    let mut function = IRFunction::new("main".to_string());
    let mut block = BasicBlock::new("entry".to_string());
    block.push_instruction(assign("%t0", IROperand::Integer(1)));
    block.push_instruction(assign("%t0", IROperand::Integer(2)));
    block.push_instruction(ret_value("%t0"));
    function.add_block(block);
    module.add_function(function);
    let errors = module.validate().expect_err("duplicate SSA definitions must fail");
    assert!(errors.iter().any(|error| error.contains("defines SSA value '%t0' more than once")));
}

#[test]
fn module_validate_rejects_empty_module_and_missing_terminator() {
    let empty = IRModule::new("m".to_string());
    let errors = empty.validate().unwrap_err();
    assert_eq!(errors, vec!["IR module 'm' has no functions.".to_string()]);

    let mut module = IRModule::new("m".to_string());
    let mut function = IRFunction::new("f".to_string());
    let mut block = BasicBlock::new("entry".to_string());
    block.push_instruction(assign("%t0", IROperand::Integer(1)));
    function.add_block(block);
    module.add_function(function);
    let errors = module.validate().unwrap_err();
    assert_eq!(errors, vec!["Module 'm': Block 'entry' in function 'f' does not end with a terminator.".to_string()]);
}

#[test]
fn function_validate_checks_uses() {
    let mut function = IRFunction::new("f".to_string());
    let mut block = BasicBlock::new("entry".to_string());
    block.push_instruction(ret_value("%t9"));
    function.add_block(block);
    let errors = function.validate().unwrap_err();
    assert_eq!(errors, vec!["Function 'f' block 'entry': use of undefined value '%t9'.".to_string()]);

    let mut function = IRFunction::new("g".to_string());
    let mut entry = BasicBlock::new("entry".to_string());
    entry.push_instruction(IRInstruction::new(IRInstructionKind::Jump { target: BasicBlockId::new("next".to_string()) }));
    entry.add_successor(BasicBlockId::new("next".to_string()));
    let mut next = BasicBlock::new("next".to_string());
    next.add_predecessor(BasicBlockId::new("entry".to_string()));
    next.push_instruction(ret_value("%t0"));
    let mut island = BasicBlock::new("island".to_string());
    island.push_instruction(assign("%t0", IROperand::Float(1.5f64.to_bits())));
    island.push_instruction(IRInstruction::new(IRInstructionKind::Return(None)));
    function.add_block(entry);
    function.add_block(next);
    function.add_block(island);
    let errors = function.validate().unwrap_err();
    assert_eq!(
        errors,
        vec!["Function 'g' block 'next': value '%t0' used here but defined in unreachable block 'island'.".to_string()]
    );
    assert_eq!(function.block_count(), 3);
    assert!(function.block(&BasicBlockId::new("next".to_string())).is_some());
    assert_eq!(function.entry_block().unwrap().id, BasicBlockId::new("entry".to_string()));
}

#[test]
fn function_validate_checks_phi_nodes() {
    let mut function = IRFunction::new("h".to_string());
    let mut entry = BasicBlock::new("entry".to_string());
    entry.push_instruction(assign("%t0", IROperand::Boolean(true)));
    entry.push_instruction(IRInstruction::new(IRInstructionKind::Jump { target: BasicBlockId::new("join".to_string()) }));
    entry.add_successor(BasicBlockId::new("join".to_string()));
    let mut join = BasicBlock::new("join".to_string());
    join.push_instruction(IRInstruction::new(IRInstructionKind::Phi {
        target: IRValueId::new("%t1".to_string()),
        incoming: vec![(IRValueId::new("%t0".to_string()), BasicBlockId::new("entry".to_string()))],
        original: None,
    }));
    join.push_instruction(ret_value("%t1"));
    function.add_block(entry);
    function.add_block(join);
    let errors = function.validate().unwrap_err();
    assert_eq!(errors, vec!["Function 'h' block 'join': phi incoming block 'entry' is not a predecessor.".to_string()]);
    function.blocks[1].add_predecessor(BasicBlockId::new("entry".to_string()));
    assert!(function.validate().is_ok());
}
