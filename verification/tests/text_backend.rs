use hulk_compiler::codegen::{
    CodegenBackend, CodegenContext, CodegenError, CodegenOutput, CodegenTarget, LlvmTextBackend,
};
use hulk_compiler::ir::{
    BasicBlock, BasicBlockId, IRBinaryOp, IRFunction, IRInstruction, IRInstructionKind, IRModule,
    IROperand, IRUnaryOp, IRValue, IRValueId,
};

fn sample_module() -> IRModule {
    let mut module = IRModule::new("sample".to_string());
    let mut function = IRFunction::new("main".to_string());
    function.return_type = Some("i64".to_string());
    let mut entry = BasicBlock::new("entry".to_string());
    entry.push_instruction(IRInstruction::new(IRInstructionKind::Return(Some(IROperand::Integer(0)))));
    function.add_block(entry);
    module.add_function(function);
    module
}

fn text_of(module: &IRModule) -> String {
    let backend = LlvmTextBackend::new(1);
    let context = CodegenContext::new("sample".to_string(), CodegenTarget::LlvmIr);
    let artifact = backend.emit_module(module, &context).expect("emission should work");
    match artifact.output {
        CodegenOutput::Text(t) => t,
        _ => panic!("expected text"),
    }
}

#[test]
fn llvm_type_names() {
    assert_eq!(LlvmTextBackend::llvm_type_for(None), "i64");
    assert_eq!(LlvmTextBackend::llvm_type_for(Some("  ")), "i64");
    assert_eq!(LlvmTextBackend::llvm_type_for(Some("Number")), "double");
    assert_eq!(LlvmTextBackend::llvm_type_for(Some(" Boolean ")), "i1");
    assert_eq!(LlvmTextBackend::llvm_type_for(Some("String")), "ptr");
    assert_eq!(LlvmTextBackend::llvm_type_for(Some("Void")), "void");
    assert_eq!(LlvmTextBackend::llvm_type_for(Some("I32")), "i32");
    assert_eq!(LlvmTextBackend::llvm_type_for(Some("usize")), "i64");
    assert_eq!(LlvmTextBackend::llvm_type_for(Some("i128")), "i128");
    assert_eq!(LlvmTextBackend::llvm_type_for(Some("ix")), "ptr");
    assert_eq!(LlvmTextBackend::llvm_type_for(Some("Point")), "ptr");
}

#[test]
fn operands_are_written() {
    let backend = LlvmTextBackend::new(2);
    assert_eq!(backend.render_operand(&IROperand::Value(IRValueId("%%t1".to_string()))), "%t1");
    assert_eq!(backend.render_operand(&IROperand::Integer(-42)), "-42");
    assert_eq!(backend.render_operand(&IROperand::Integer(i64::MIN)), "-9223372036854775808");
    assert_eq!(backend.render_operand(&IROperand::Float(1.5f64.to_bits())), "0x3FF8000000000000");
    assert_eq!(backend.render_operand(&IROperand::Boolean(true)), "true");
    assert_eq!(backend.render_operand(&IROperand::Text("hi".to_string())), "\"hi\"");
}

#[test]
fn emits_header_runtime_and_definition() {
    let text = text_of(&sample_module());
    assert!(text.starts_with("; ModuleID = 'sample'\ntarget triple = \"x86_64-unknown-linux-gnu\"\n"));
    assert!(text.contains("declare double @print_number(double)\n"));
    assert!(text.contains("declare void @hulk_free(ptr)\n"));
    assert!(text.ends_with("define i64 @main() {\nentry:\n  ret i64 0\n}\n\n"));
}

#[test]
fn rejects_other_targets() {
    let backend = LlvmTextBackend::new(3);
    let context = CodegenContext::new("sample".to_string(), CodegenTarget::Native);
    let error = backend.emit_module(&sample_module(), &context).unwrap_err();
    assert_eq!(
        error,
        CodegenError::BackendFailure {
            message: "backend 'llvm-text' only supports LLVM IR text output".to_string()
        }
    );
    assert_eq!(backend.backend_name(), "llvm-text");
}

#[test]
fn rejects_invalid_modules() {
    let backend = LlvmTextBackend::new(4);
    let context = CodegenContext::new("empty".to_string(), CodegenTarget::LlvmIr);
    let module = IRModule::new("empty".to_string());
    match backend.emit_module(&module, &context) {
        Err(CodegenError::InvalidModule { module, .. }) => assert_eq!(module, "empty"),
        other => panic!("expected an invalid module, got {:?}", other),
    }
}

#[test]
fn renders_every_instruction_kind() {
    let mut module = IRModule::new("m".to_string());
    let mut helper = IRFunction::new("helper".to_string());
    helper.return_type = Some("Number".to_string());
    helper.parameters.push(IRValue::parameter("x".to_string()).with_type("Number".to_string()));
    let mut hb = BasicBlock::new("entry".to_string());
    hb.push_instruction(IRInstruction::new(IRInstructionKind::Return(Some(IROperand::Value(IRValueId("x".to_string()))))));
    helper.add_block(hb);

    let mut main = IRFunction::new("main".to_string());
    let mut entry = BasicBlock::new("entry".to_string());
    entry.push_instruction(IRInstruction::new(IRInstructionKind::Assign {
        target: IRValueId("%a".to_string()),
        value: IROperand::Boolean(true),
        original: None,
    }));
    entry.push_instruction(IRInstruction::new(IRInstructionKind::Binary {
        target: IRValueId("%b".to_string()),
        op: IRBinaryOp::Lt,
        left: IROperand::Integer(1),
        right: IROperand::Integer(2),
    }));
    entry.push_instruction(IRInstruction::new(IRInstructionKind::Unary {
        target: IRValueId("%c".to_string()),
        op: IRUnaryOp::Not,
        operand: IROperand::Value(IRValueId("%b".to_string())),
    }));
    entry.push_instruction(IRInstruction::new(IRInstructionKind::Call {
        target: Some(IRValueId("%d".to_string())),
        callee: "helper".to_string(),
        arguments: vec![IROperand::Integer(3)],
        original: None,
    }));
    entry.push_instruction(IRInstruction::new(IRInstructionKind::Branch {
        condition: IROperand::Value(IRValueId("%c".to_string())),
        then_block: BasicBlockId("next".to_string()),
        else_block: BasicBlockId("next".to_string()),
    }));
    main.add_block(entry);
    let mut next = BasicBlock::new("next".to_string());
    next.push_instruction(IRInstruction::new(IRInstructionKind::Nop));
    next.push_instruction(IRInstruction::new(IRInstructionKind::Return(None)));
    main.add_block(next);
    module.add_function(helper);
    module.add_function(main);

    let backend = LlvmTextBackend::new(5);
    let main_text = backend.render_function(&module, "main").unwrap();
    assert_eq!(
        main_text,
        "define i64 @main() {\nentry:\n  %a.addr = alloca i1\n  store i1 true, ptr %a.addr\n  %a = load i1, ptr %a.addr\n  %b = icmp slt i64 1, 2\n  %c = xor i1 true, %b\n  %d = call double @helper(i64 3)\n  br i1 %c, label %next, label %next\nnext:\n  ; nop\n  ret void\n}\n\n"
    );
    let helper_text = backend.render_function(&module, "helper").unwrap();
    assert_eq!(
        helper_text,
        "define double @helper(double %x) {\nentry:\n  ret double %x\n}\n\n"
    );
    match backend.render_function(&module, "missing") {
        Err(CodegenError::BackendFailure { message }) => {
            assert_eq!(message, "function 'missing' disappeared while rendering")
        }
        other => panic!("unexpected {:?}", other),
    }
}

#[test]
fn phi_without_incoming_edges_is_refused() {
    let mut module = IRModule::new("m".to_string());
    let mut f = IRFunction::new("f".to_string());
    let mut b = BasicBlock::new("entry".to_string());
    b.push_instruction(IRInstruction::new(IRInstructionKind::Phi {
        target: IRValueId("%p".to_string()),
        incoming: vec![],
        original: None,
    }));
    f.add_block(b);
    module.add_function(f);
    let backend = LlvmTextBackend::new(6);
    assert_eq!(
        backend.render_function(&module, "f"),
        Err(CodegenError::UnsupportedInstruction {
            function: "f".to_string(),
            block: "entry".to_string(),
            message: "phi node for target '%p' has no incoming edges".to_string(),
        })
    );
}

#[test]
fn undeclared_callees_get_prototypes() {
    let mut module = IRModule::new("m".to_string());
    let mut f = IRFunction::new("main".to_string());
    let mut b = BasicBlock::new("entry".to_string());
    b.push_instruction(IRInstruction::new(IRInstructionKind::Call {
        target: None,
        callee: "ext".to_string(),
        arguments: vec![IROperand::Float(0), IROperand::Integer(1)],
        original: None,
    }));
    b.push_instruction(IRInstruction::new(IRInstructionKind::Return(Some(IROperand::Integer(0)))));
    f.add_block(b);
    module.add_function(f);
    let text = text_of(&module);
    assert!(text.contains("declare double @ext(double, i64)\n"));
    assert!(text.contains("  call i64 @ext(double 0x0000000000000000, i64 1)\n"));
}

fn one_function(name: &str) -> IRFunction {
    let mut f = IRFunction::new(name.to_string());
    let mut b = BasicBlock::new("entry".to_string());
    b.push_instruction(IRInstruction::new(IRInstructionKind::Return(None)));
    f.add_block(b);
    f
}

#[test]
fn functions_named_like_the_runtime_are_refused() {
    let mut module = IRModule::new("m".to_string());
    module.add_function(one_function("print_number"));
    let backend = LlvmTextBackend::new(7);
    let context = CodegenContext::new("m".to_string(), CodegenTarget::LlvmIr);
    assert_eq!(
        backend.emit_module(&module, &context).unwrap_err(),
        CodegenError::BackendFailure {
            message: "Symbol 'print_number' conflicts with runtime declaration".to_string()
        }
    );
}

#[test]
fn duplicate_functions_are_refused() {
    let mut module = IRModule::new("m".to_string());
    module.add_function(one_function("f"));
    module.add_function(one_function("f"));
    let backend = LlvmTextBackend::new(8);
    let context = CodegenContext::new("m".to_string(), CodegenTarget::LlvmIr);
    assert!(matches!(
        backend.emit_module(&module, &context),
        Err(CodegenError::BackendFailure { .. })
    ));
}

#[test]
fn calls_with_the_wrong_arity_are_refused() {
    let mut module = IRModule::new("m".to_string());
    module.add_function(one_function("f"));
    let mut g = IRFunction::new("g".to_string());
    let mut b = BasicBlock::new("entry".to_string());
    b.push_instruction(IRInstruction::new(IRInstructionKind::Call {
        target: None,
        callee: "f".to_string(),
        arguments: vec![IROperand::Integer(1)],
        original: None,
    }));
    b.push_instruction(IRInstruction::new(IRInstructionKind::Return(None)));
    g.add_block(b);
    module.add_function(g);
    let backend = LlvmTextBackend::new(9);
    let context = CodegenContext::new("m".to_string(), CodegenTarget::LlvmIr);
    match backend.emit_module(&module, &context) {
        Err(CodegenError::InvalidModule { module, message }) => {
            assert_eq!(module, "m");
            assert!(message.starts_with("validation failed: "));
        }
        other => panic!("unexpected {:?}", other),
    }
}
