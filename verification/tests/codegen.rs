use hulk_compiler::codegen::context::{DEFAULT_DATA_LAYOUT, DEFAULT_TARGET_TRIPLE};
use hulk_compiler::codegen::{
    CodegenArtifact, CodegenBackend, CodegenContext, CodegenError, CodegenOutput, CodegenTarget, LlvmBuilder,
    LlvmContext, LlvmInkwellBackend, LlvmLifecycle, LlvmModule,
};
use hulk_compiler::ir::{BasicBlock, IRFunction, IRInstruction, IRInstructionKind, IRModule, IROperand, IRValueId};

fn sample_module() -> IRModule {
    let mut module = IRModule::new("sample".to_string());
    let mut function = IRFunction::new("main".to_string());
    function.return_type = Some("i64".to_string());
    let mut entry = BasicBlock::new("entry".to_string());
    entry.push_instruction(IRInstruction::new(IRInstructionKind::Return(Some(IROperand::Integer(0)))));
    function.add_block(entry);
    module.add_function(function);
    module
}

#[test]
fn inkwell_backend_is_disabled_without_feature() {
    let backend = LlvmInkwellBackend::new();
    let context = CodegenContext::new("sample".to_string(), CodegenTarget::LlvmIr);
    let error = backend.emit_module(&sample_module(), &context).expect_err("backend should be disabled without feature");
    assert!(error.render().contains("feature 'llvm-verify'"));
    assert_eq!(backend.backend_name(), "llvm-inkwell (disabled)");
}

#[test]
fn context_defaults_and_overrides() {
    let context = CodegenContext::new("m".to_string(), CodegenTarget::LlvmIr);
    assert!(context.emit_comments);
    assert_eq!(context.resolved_target_triple(), DEFAULT_TARGET_TRIPLE);
    assert_eq!(context.resolved_data_layout(), DEFAULT_DATA_LAYOUT);
    let context = context
        .with_target_triple("aarch64-apple-darwin".to_string())
        .with_data_layout("e".to_string())
        .without_comments();
    assert_eq!(context.resolved_target_triple(), "aarch64-apple-darwin");
    assert_eq!(context.resolved_data_layout(), "e");
    assert!(!context.emit_comments);
    assert_eq!(context.module_name, "m");
}

#[test]
fn module_registers_defines_and_declares() {
    let ctx = LlvmContext::new(7);
    assert!(ctx.is_valid());
    assert_eq!(ctx.id(), 7);
    let mut m = LlvmModule::new(&ctx, "m".to_string());
    assert_eq!(m.name(), "m");
    assert_eq!(m.target_triple(), DEFAULT_TARGET_TRIPLE);
    m.add_default_runtime_decls();
    assert_eq!(m.runtime_decls().len(), 6);
    assert_eq!(m.runtime_decls()[0].0, "print_number");
    assert_eq!(
        m.register_runtime_decl("print_bool".to_string(), "i1".to_string(), vec![]),
        Err("Symbol 'print_bool' already exists in module".to_string())
    );
    assert_eq!(
        m.define_symbol("hulk_free".to_string(), "void".to_string(), vec![]),
        Err("Symbol 'hulk_free' conflicts with runtime declaration".to_string())
    );
    assert_eq!(m.declare_symbol("ext".to_string(), "i64".to_string(), vec!["i64".to_string()]), Ok(()));
    assert_eq!(m.declare_symbol("ext".to_string(), "i64".to_string(), vec!["i64".to_string()]), Ok(()));
    assert_eq!(
        m.declare_symbol("ext".to_string(), "double".to_string(), vec![]),
        Err("Conflicting prototype for symbol 'ext'".to_string())
    );
    assert_eq!(
        m.define_symbol("ext".to_string(), "double".to_string(), vec![]),
        Err("Conflicting definition for symbol 'ext'".to_string())
    );
    assert_eq!(m.define_symbol("ext".to_string(), "i64".to_string(), vec!["i64".to_string()]), Ok(()));
    assert!(m.prototypes()[0].3);
    assert_eq!(
        m.define_symbol("ext".to_string(), "i64".to_string(), vec!["i64".to_string()]),
        Err("Symbol 'ext' already defined in module".to_string())
    );
    let (ret, params) = m.lookup_symbol("ext").unwrap();
    assert_eq!(ret, "i64");
    assert_eq!(params, &["i64".to_string()][..]);
    assert!(m.lookup_symbol("nope").is_none());
    assert_eq!(m.symbols().len(), 1);
}

#[test]
fn finalized_module_refuses_changes() {
    let ctx = LlvmContext::new(1);
    let mut m = LlvmModule::new(&ctx, "m".to_string());
    m.finalize();
    assert!(m.is_finalized());
    m.set_target_triple("other".to_string());
    m.set_data_layout("other".to_string());
    assert_eq!(m.target_triple(), DEFAULT_TARGET_TRIPLE);
    assert_eq!(m.data_layout(), DEFAULT_DATA_LAYOUT);
    assert_eq!(
        m.register_symbol("f".to_string(), "i64".to_string(), vec![]),
        Err("Module is finalized; cannot register new symbols".to_string())
    );
    assert_eq!(
        m.register_runtime_decl("g".to_string(), "i64".to_string(), vec![]),
        Err("Module is finalized; cannot register new runtime declarations".to_string())
    );
    assert!(m.verify_context(&ctx).is_ok());
    assert_eq!(m.verify_context(&LlvmContext::new(2)), Err("Module context mismatch".to_string()));
}

#[test]
fn builder_lifecycle() {
    let ctx = LlvmContext::new(3);
    let module = LlvmModule::new(&ctx, "m".to_string());
    let mut builder = LlvmBuilder::new(module);
    assert_eq!(builder.end_function(), Err("No function in progress".to_string()));
    assert_eq!(builder.begin_block("bb0".to_string()), Err("Cannot begin a block outside a function".to_string()));
    assert_eq!(builder.begin_function("f".to_string(), "i64".to_string(), vec![]), Ok(()));
    assert_eq!(builder.current_function(), Some("f"));
    assert_eq!(
        builder.begin_function("g".to_string(), "i64".to_string(), vec![]),
        Err("Cannot begin a function while another is in progress".to_string())
    );
    assert_eq!(builder.emit_instruction("ret i64 0".to_string()), Err("Cannot emit instruction outside a block".to_string()));
    assert_eq!(builder.begin_block("entry".to_string()), Ok(()));
    assert_eq!(builder.current_block(), Some("entry"));
    assert_eq!(builder.emit_instruction("a".to_string()), Ok(()));
    assert_eq!(builder.emit_instruction("b".to_string()), Ok(()));
    assert!(builder.module().lookup_symbol("f").is_some());
    let text = builder.end_function().unwrap();
    assert_eq!(text, "define {}@f(...) {\na\nb\n}\n");
    assert_eq!(builder.current_function(), None);
    let module = builder.finish().unwrap();
    assert!(module.is_finalized());
}

#[test]
fn builder_cannot_finish_inside_a_function() {
    let ctx = LlvmContext::new(4);
    let mut builder = LlvmBuilder::new(LlvmModule::new(&ctx, "m".to_string()));
    builder.begin_function("f".to_string(), "i64".to_string(), vec![]).unwrap();
    assert_eq!(
        builder.finish().err(),
        Some("Cannot finish builder while a function is in progress".to_string())
    );
}

#[test]
fn lifecycle_checks_context_and_calls() {
    let lifecycle = LlvmLifecycle::new(10);
    assert_eq!(lifecycle.context().id(), 10);
    let module = lifecycle.create_module("m".to_string()).unwrap();
    assert_eq!(module.runtime_decls().len(), 6);
    match lifecycle.validate_module(&module) {
        Err(CodegenError::InvalidModule { module, message }) => {
            assert_eq!(module, "m");
            assert_eq!(message, "module has no symbols; at least one function expected");
        }
        _ => panic!("expected an invalid module"),
    }
    let other = LlvmLifecycle::new(11);
    let foreign = other.create_module("x".to_string()).unwrap();
    assert!(matches!(lifecycle.create_builder(foreign), Err(CodegenError::BackendFailure { .. })));

    let mut module = module;
    module.define_symbol("main".to_string(), "i64".to_string(), vec![]).unwrap();
    assert!(lifecycle.validate_module(&module).is_ok());
    let mut ir = sample_module();
    ir.functions[0].blocks[0].instructions.insert(
        0,
        IRInstruction::new(IRInstructionKind::Call {
            target: Some(IRValueId::new("%t0".to_string())),
            callee: "main".to_string(),
            arguments: vec![IROperand::Integer(1)],
            original: None,
        }),
    );
    match lifecycle.validate_full_module(&module, &ir) {
        Err(CodegenError::InvalidModule { message, .. }) => {
            assert_eq!(message, "Call to 'main' has 1 args but definition has 0 parameters")
        }
        _ => panic!("expected a call mismatch"),
    }
    ir.functions[0].blocks[0].instructions[0] = IRInstruction::new(IRInstructionKind::Call {
        target: None,
        callee: "print_bool".to_string(),
        arguments: vec![IROperand::Boolean(true)],
        original: None,
    });
    assert!(lifecycle.validate_full_module(&module, &ir).is_ok());
    ir.functions[0].blocks[0].instructions[0] = IRInstruction::new(IRInstructionKind::Call {
        target: None,
        callee: "mystery".to_string(),
        arguments: vec![],
        original: None,
    });
    match lifecycle.validate_full_module(&module, &ir) {
        Err(CodegenError::InvalidModule { message, .. }) => assert_eq!(message, "Call to unknown symbol 'mystery'"),
        _ => panic!("expected an unknown symbol"),
    }
}

#[test]
fn artifacts_and_errors() {
    let a = CodegenArtifact::text(CodegenTarget::LlvmIr, "x".to_string());
    assert_eq!(a.as_text(), Some("x"));
    let b = CodegenArtifact::binary(CodegenTarget::LlvmBitcode, vec![1, 2]);
    assert_eq!(b.as_text(), None);
    assert_eq!(b.output, CodegenOutput::Binary(vec![1, 2]));
    let e = CodegenError::InvalidModule { module: "m".to_string(), message: "bad".to_string() };
    assert_eq!(e.render(), "invalid module 'm': bad");
}

#[test]
fn default_runtime_decls_skip_taken_names_and_repeat_harmlessly() {
    let ctx = LlvmContext::new(3);
    let mut m = LlvmModule::new(&ctx, "m".to_string());
    m.define_symbol("print_bool".to_string(), "i1".to_string(), vec!["i1".to_string()]).unwrap();
    m.add_default_runtime_decls();
    let names: Vec<String> = m.runtime_decls().iter().map(|d| d.0.clone()).collect();
    assert_eq!(names, vec!["print_number", "print_string", "hulk_alloc", "hulk_free", "hulk_strlen"]);
    m.add_default_runtime_decls();
    assert_eq!(m.runtime_decls().len(), 5);
}

#[test]
fn cloned_context_keeps_its_identity() {
    let c1 = LlvmContext::new(11);
    let c2 = LlvmContext::new(12);
    let m = LlvmModule::new(&c1, "m".to_string());
    assert_eq!(m.verify_context(&c1), Ok(()));
    assert_eq!(m.verify_context(&c1.clone()), Ok(()));
    assert_eq!(m.verify_context(&c2), Err("Module context mismatch".to_string()));
}
