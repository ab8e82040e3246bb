use trust_eval::vm::{
    BinaryOp, DebugEntry, DecodeFault, HostRequest, PouCode, StatementReport, Step, UnsupportedOp, VmModule,
    VmState, VmTrap, VmValue,
};

fn module(code: Vec<u8>, pous: Vec<PouCode>, budget: u64) -> VmModule {
    VmModule {
        code,
        consts: vec![VmValue::DInt(5), VmValue::Bool(true), VmValue::Bool(false)],
        pous,
        strings: vec!["field".to_string()],
        program_ids: vec![],
        function_block_ids: vec![],
        instruction_budget: budget,
        debug_map: vec![],
    }
}

fn u32le(v: u32) -> [u8; 4] {
    v.to_le_bytes()
}

#[test]
fn const_dup_swap_pop() {
    let mut code = vec![0x10];
    code.extend(u32le(0)); // CONST 0
    code.push(0x10);
    code.extend(u32le(1)); // CONST 1
    code.push(0x13); // SWAP
    code.push(0x11); // DUP
    code.push(0x12); // POP
    let end = code.len();
    let m = module(code, vec![PouCode { code_start: 0, code_end: end }], 100);
    let mut st = VmState::start(&m, 0, None).expect("start");
    assert_eq!(st.run(&m, &mut Vec::new()), Ok(Step::Finished));
    assert_eq!(st.stack, vec![VmValue::Bool(true), VmValue::DInt(5)]);
    assert_eq!(st.budget, 95);
}

#[test]
fn conditional_jump_and_budget() {
    // CONST true; JUMP_IF_TRUE +5 (skip CONST 0); CONST 0; NOP
    let mut code = vec![0x10];
    code.extend(u32le(1));
    code.push(0x03);
    code.extend(u32le(5));
    code.push(0x10);
    code.extend(u32le(0));
    code.push(0x00);
    let end = code.len();
    let m = module(code.clone(), vec![PouCode { code_start: 0, code_end: end }], 100);
    let mut st = VmState::start(&m, 0, None).expect("start");
    assert_eq!(st.run(&m, &mut Vec::new()), Ok(Step::Finished));
    assert!(st.stack.is_empty());
    assert_eq!(st.budget, 97);

    let small = module(code, vec![PouCode { code_start: 0, code_end: end }], 1);
    let mut st = VmState::start(&small, 0, None).expect("start");
    assert_eq!(st.run(&small, &mut Vec::new()), Err(VmTrap::BudgetExceeded));
    // the trap leaves the state where the trapping step began
    assert_eq!(st.stack, vec![VmValue::Bool(true)]);
    assert_eq!(st.pc, 5);
}

#[test]
fn jump_outside_frame_traps() {
    let mut code = vec![0x02];
    code.extend(u32le((-100i32) as u32));
    let end = code.len();
    let m = module(code, vec![PouCode { code_start: 0, code_end: end }], 10);
    let mut st = VmState::start(&m, 0, None).expect("start");
    assert_eq!(st.step(&m, false), Err(VmTrap::InvalidJumpTarget(-95)));
    assert_eq!(st.pc, 0);
    assert_eq!(st.budget, 10);
}

#[test]
fn call_and_return() {
    // POU 0: CALL 1; NOP      POU 1: CONST 0; RET
    let mut code = vec![0x05];
    code.extend(u32le(1));
    code.push(0x00);
    let callee = code.len();
    code.push(0x10);
    code.extend(u32le(0));
    code.push(0x06);
    let end = code.len();
    let m = module(
        code,
        vec![PouCode { code_start: 0, code_end: callee }, PouCode { code_start: callee, code_end: end }],
        100,
    );
    let mut st = VmState::start(&m, 0, Some(3)).expect("start");
    assert_eq!(st.step(&m, false), Ok(Step::Continue));
    assert_eq!(st.frames.len(), 2);
    assert_eq!(st.frames[1].runtime_instance, Some(3));
    assert_eq!(st.step(&m, false), Ok(Step::Continue));
    assert_eq!(st.step(&m, false), Ok(Step::Continue));
    assert_eq!(st.pc, 5);
    assert_eq!(st.frames.len(), 1);
    assert_eq!(st.run(&m, &mut Vec::new()), Ok(Step::Finished));
    assert_eq!(st.stack, vec![VmValue::DInt(5)]);
}

#[test]
fn host_requests_and_traps() {
    let mut code = vec![0x40, 0x23, 0x30];
    code.extend(u32le(0));
    code.push(0x30);
    code.extend(u32le(7));
    let end = code.len();
    let m = module(code, vec![PouCode { code_start: 0, code_end: end }], 100);
    let mut st = VmState::start(&m, 0, Some(9)).expect("start");
    assert_eq!(st.run(&m, &mut Vec::new()), Ok(Step::Host(HostRequest::Binary(BinaryOp::Add))));
    assert_eq!(st.step(&m, false), Ok(Step::Continue));
    assert_eq!(st.stack, vec![VmValue::Instance(9)]);
    assert_eq!(st.step(&m, false), Ok(Step::Host(HostRequest::RefField(0))));
    assert_eq!(st.step(&m, false), Err(VmTrap::BytecodeDecode(DecodeFault::StringIndex(7))));
    assert_eq!(st.step(&m, true), Err(VmTrap::DeadlineExceeded));

    let m = module(vec![0x4A, 0xFF, 0x13], vec![PouCode { code_start: 0, code_end: 3 }], 100);
    let mut st = VmState::start(&m, 0, None).expect("start");
    assert_eq!(st.step(&m, false), Err(VmTrap::UnsupportedOpcode(UnsupportedOp::Shl)));
    st.pc = 1;
    assert_eq!(st.step(&m, false), Err(VmTrap::InvalidOpcode(0xFF)));
    st.pc = 2;
    assert_eq!(st.step(&m, false), Err(VmTrap::StackUnderflow));
    assert!(matches!(VmState::start(&m, 4, None), Err(VmTrap::InvalidPou(4))));
}

#[test]
fn swap_twice_restores_stack() {
    let mut code = vec![0x10];
    code.extend(u32le(0));
    code.push(0x10);
    code.extend(u32le(1));
    code.push(0x13);
    code.push(0x13);
    let end = code.len();
    let m = module(code, vec![PouCode { code_start: 0, code_end: end }], 100);
    let mut st = VmState::start(&m, 0, None).expect("start");
    assert_eq!(st.run(&m, &mut Vec::new()), Ok(Step::Finished));
    assert_eq!(st.stack, vec![VmValue::DInt(5), VmValue::Bool(true)]);
}

#[test]
fn fetch_and_operand_decode_faults() {
    // JUMP with a truncated operand
    let m = module(vec![0x02, 0x01], vec![PouCode { code_start: 0, code_end: 2 }], 10);
    let mut st = VmState::start(&m, 0, None).expect("start");
    assert_eq!(st.step(&m, false), Err(VmTrap::BytecodeDecode(DecodeFault::OperandOutOfBounds)));
    // a frame whose code lies beyond the module's code
    let m = module(vec![0x00], vec![PouCode { code_start: 0, code_end: 4 }], 10);
    let mut st = VmState::start(&m, 0, None).expect("start");
    st.pc = 2;
    assert_eq!(st.step(&m, false), Err(VmTrap::BytecodeDecode(DecodeFault::FetchOutOfBounds)));
}

#[test]
fn statements_are_reported_before_their_instructions() {
    // POU 0: NOP; CALL 1; NOP      POU 1: NOP; RET
    let mut code = vec![0x00, 0x05];
    code.extend(u32le(1));
    code.push(0x00);
    let callee = code.len();
    code.push(0x00);
    code.push(0x06);
    let end = code.len();
    let mut m = module(
        code,
        vec![PouCode { code_start: 0, code_end: callee }, PouCode { code_start: callee, code_end: end }],
        100,
    );
    let entry = |pou_id: u32, pc: u32, line: u32| DebugEntry {
        pou_id,
        pc,
        file: "main.st".to_string(),
        line,
        column: 1,
    };
    m.debug_map = vec![entry(0, 0, 1), entry(0, 1, 2), entry(1, callee as u32, 10)];
    let mut st = VmState::start(&m, 0, None).expect("start");
    assert_eq!(st.statement_at(&m, false), Some(StatementReport { entry: 0, call_depth: 0 }));
    // no report when the deadline or the budget stops the step
    assert_eq!(st.statement_at(&m, true), None);
    let mut reports = Vec::new();
    assert_eq!(st.run(&m, &mut reports), Ok(Step::Finished));
    assert_eq!(
        reports,
        vec![
            StatementReport { entry: 0, call_depth: 0 },
            StatementReport { entry: 1, call_depth: 0 },
            StatementReport { entry: 2, call_depth: 1 },
        ]
    );
    assert_eq!(m.debug_map[reports[2].entry].line, 10);

    // a step that traps still reports the statement it reached
    let mut m = module(vec![0xFF], vec![PouCode { code_start: 0, code_end: 1 }], 100);
    m.debug_map = vec![entry(0, 0, 3)];
    let mut st = VmState::start(&m, 0, None).expect("start");
    let mut reports = Vec::new();
    assert_eq!(st.run(&m, &mut reports), Err(VmTrap::InvalidOpcode(0xFF)));
    assert_eq!(reports, vec![StatementReport { entry: 0, call_depth: 0 }]);
    st.budget = 0;
    assert_eq!(st.statement_at(&m, false), None);
}
