use trust_eval::execution_backend::ExecutionBackend;
use trust_eval::runtime::{
    resolve_backend, validate_backend_selection, Backend, Dispatch, RefTarget, Runtime,
};
use trust_eval::runtime_error::RuntimeError;
use trust_eval::vm::{PouCode, VmModule, VmValue};

fn module() -> VmModule {
    VmModule {
        code: vec![0x00, 0x06],
        consts: vec![VmValue::DInt(1)],
        pous: vec![PouCode { code_start: 0, code_end: 2 }],
        strings: vec![],
        program_ids: vec![("MAIN".to_string(), 0)],
        function_block_ids: vec![("COUNTER".to_string(), 0)],
        instruction_budget: 100,
        debug_map: vec![],
    }
}

#[test]
fn runtime_execution_backend_defaults_and_validation() {
    let mut runtime = Runtime::new();
    assert_eq!(runtime.execution_backend(), ExecutionBackend::Interpreter);

    let err = runtime
        .set_execution_backend(ExecutionBackend::BytecodeVm)
        .expect_err("vm backend should require loaded bytecode module");
    assert!(err.to_string().contains("runtime.execution_backend='vm'"));
}

#[test]
fn vm_backend_accepted_once_module_loaded() {
    let mut runtime = Runtime::new();
    assert!(validate_backend_selection(&runtime, ExecutionBackend::Interpreter).is_ok());
    assert!(validate_backend_selection(&runtime, ExecutionBackend::BytecodeVm).is_err());
    runtime.load_vm_module(module());
    assert!(runtime.set_execution_backend(ExecutionBackend::BytecodeVm).is_ok());
    assert_eq!(runtime.execution_backend(), ExecutionBackend::BytecodeVm);
    assert!(runtime.set_execution_backend(ExecutionBackend::Interpreter).is_ok());
    assert_eq!(runtime.execution_backend(), ExecutionBackend::Interpreter);
}

#[test]
fn failed_selection_keeps_backend() {
    let mut runtime = Runtime::new();
    assert!(runtime.set_execution_backend(ExecutionBackend::BytecodeVm).is_err());
    assert_eq!(runtime.execution_backend(), ExecutionBackend::Interpreter);
}

#[test]
fn resolve_backend_maps_modes() {
    assert_eq!(resolve_backend(ExecutionBackend::Interpreter), Backend::Interpreter);
    assert_eq!(resolve_backend(ExecutionBackend::BytecodeVm), Backend::BytecodeVm);
}

#[test]
fn start_program_finds_names_in_any_case() {
    let mut runtime = Runtime::new();
    assert!(matches!(
        runtime.start_program("main", None),
        Err(RuntimeError::InvalidConfig(_))
    ));
    runtime.load_vm_module(module());
    let st = runtime.start_program("main", None).expect("start");
    assert_eq!(st.pc, 0);
    assert_eq!(st.budget, 100);
    assert_eq!(st.frames.len(), 1);
    assert_eq!(st.frames[0].return_pc, usize::MAX);
    match runtime.start_program("other", None) {
        Err(e) => assert_eq!(e.to_string(), "vm program 'other' not found"),
        Ok(_) => panic!("no such program"),
    }
    let fb = runtime.start_function_block("Counter", 7).expect("start fb");
    assert_eq!(fb.frames[0].runtime_instance, Some(7));
    assert!(matches!(
        runtime.start_function_block("Timer", 7),
        Err(RuntimeError::MissingFunctionBlock(_))
    ));
}

#[test]
fn start_program_with_a_bad_pou_id_is_a_vm_trap() {
    let mut m = module();
    m.program_ids = vec![("MAIN".to_string(), 9)];
    let mut runtime = Runtime::new();
    runtime.load_vm_module(m);
    match runtime.start_program("Main", Some(1)) {
        Err(e) => {
            assert_eq!(e.to_string(), "vm trap");
            assert!(matches!(e, RuntimeError::Vm(trust_eval::vm::VmTrap::InvalidPou(9))));
        }
        Ok(_) => panic!("no such POU"),
    }
}

#[test]
fn backends_dispatch_to_their_paths() {
    let mut runtime = Runtime::new();
    let interp = resolve_backend(ExecutionBackend::Interpreter);
    let vm = resolve_backend(ExecutionBackend::BytecodeVm);
    assert!(matches!(interp.execute_program(&runtime, "main", None), Ok(Dispatch::Interpreter)));
    assert!(matches!(
        interp.execute_function_block_ref(&runtime, &RefTarget::Null),
        Ok(Dispatch::Interpreter)
    ));
    assert!(matches!(
        vm.execute_program(&runtime, "main", None),
        Err(RuntimeError::InvalidConfig(_))
    ));
    runtime.load_vm_module(module());
    match vm.execute_program(&runtime, "Main", Some(2)) {
        Ok(Dispatch::Vm(st)) => {
            assert_eq!(st.frames.len(), 1);
            assert_eq!(st.frames[0].runtime_instance, Some(2));
        }
        _ => panic!("the VM starts the program"),
    }
    let target = RefTarget::Instance { id: 5, block_type: Some("counter".to_string()) };
    match vm.execute_function_block_ref(&runtime, &target) {
        Ok(Dispatch::Vm(st)) => assert_eq!(st.frames[0].runtime_instance, Some(5)),
        _ => panic!("the VM starts the function block"),
    }
    assert!(matches!(
        vm.execute_program(&runtime, "other", None),
        Err(RuntimeError::MissingProgram(_))
    ));
}

#[test]
fn function_block_references_are_checked_before_the_lookup() {
    let mut runtime = Runtime::new();
    let fb = |t: Option<&str>| RefTarget::Instance { id: 4, block_type: t.map(|s| s.to_string()) };
    // without a module, the configuration error comes first
    assert!(matches!(
        runtime.start_function_block_ref(&RefTarget::Null),
        Err(RuntimeError::InvalidConfig(_))
    ));
    runtime.load_vm_module(module());
    assert!(matches!(
        runtime.start_function_block_ref(&RefTarget::Null),
        Err(RuntimeError::NullReference)
    ));
    assert!(matches!(
        runtime.start_function_block_ref(&RefTarget::NotInstance),
        Err(RuntimeError::TypeMismatch)
    ));
    assert!(matches!(
        runtime.start_function_block_ref(&fb(None)),
        Err(RuntimeError::NullReference)
    ));
    assert!(matches!(
        runtime.start_function_block_ref(&fb(Some("Timer"))),
        Err(RuntimeError::MissingFunctionBlock(_))
    ));
    let st = runtime.start_function_block_ref(&fb(Some("Counter"))).expect("start");
    assert_eq!(st.frames[0].runtime_instance, Some(4));
    assert_eq!(RuntimeError::NullReference.to_string(), "null reference");
    assert_eq!(RuntimeError::TypeMismatch.to_string(), "type mismatch");
}
