use vstd::prelude::*;

verus! {

/// A value on the VM's operand stack.
#[derive(Debug, Clone, Copy, PartialEq, Eq, Structural)]
pub enum VmValue {
    Bool(bool),
    DInt(i32),
    /// A function block instance, by its id.
    Instance(u64),
    /// Any other value, held by the host under this handle.
    Host(u64),
}

/// Where the code of a program organisation unit lies in the module's code.
#[derive(Debug, Clone, Copy, PartialEq, Eq, Structural)]
pub struct PouCode {
    pub code_start: usize,
    pub code_end: usize,
}

/// An entry of a module's debug map: the source position of the statement whose
/// code starts at `pc` in POU `pou_id`.
#[derive(Debug)]
pub struct DebugEntry {
    pub pou_id: u32,
    pub pc: u32,
    pub file: String,
    pub line: u32,
    pub column: u32,
}

/// A compiled bytecode module.
pub struct VmModule {
    pub code: Vec<u8>,
    pub consts: Vec<VmValue>,
    /// The code of each POU, by POU id.
    pub pous: Vec<PouCode>,
    pub strings: Vec<String>,
    /// Program names, in upper case, with their POU ids.
    pub program_ids: Vec<(String, u32)>,
    /// Function block type names, in upper case, with their POU ids.
    pub function_block_ids: Vec<(String, u32)>,
    /// How many instructions one execution may run.
    pub instruction_budget: u64,
    /// The source positions of statements, by POU id and code position; each key
    /// occurs once.
    pub debug_map: Vec<DebugEntry>,
}

/// A call frame.
#[derive(Debug, Clone, Copy, PartialEq, Eq, Structural)]
pub struct Frame {
    pub pou_id: u32,
    pub code_start: usize,
    pub code_end: usize,
    /// Where execution resumes in the caller when this frame returns.
    pub return_pc: usize,
    /// The function block instance this frame runs for, if any.
    pub runtime_instance: Option<u64>,
}

/// Binary operators that the host applies to the two topmost operands.
#[derive(Debug, Clone, Copy, PartialEq, Eq, Structural)]
pub enum BinaryOp {
    Add,
    Sub,
    Mul,
    Div,
    Mod,
    And,
    Or,
    Xor,
    Pow,
    Eq,
    Ne,
    Lt,
    Le,
    Gt,
    Ge,
}

/// Unary operators that the host applies to the topmost operand.
#[derive(Debug, Clone, Copy, PartialEq, Eq, Structural)]
pub enum UnaryOp {
    Neg,
    Not,
}

/// Work that only the host runtime can do (storage, references, native functions,
/// value arithmetic, sizes). The host performs it on the state's operand stack and
/// steps again.
#[derive(Debug, Clone, Copy, PartialEq, Eq, Structural)]
pub enum HostRequest {
    NativeCall { kind: u32, symbol: u32, arg_count: u32 },
    LoadRef(u32),
    StoreRef(u32),
    LoadRefAddr(u32),
    /// Push the parent instance of this instance.
    Super(u64),
    RefField(u32),
    RefIndex,
    LoadDynamic,
    StoreDynamic,
    Binary(BinaryOp),
    Unary(UnaryOp),
    SizeofType(u32),
    SizeofValue,
}

/// Why bytes of the code cannot be decoded.
#[derive(Debug, Clone, Copy, PartialEq, Eq, Structural)]
pub enum DecodeFault {
    /// The program counter lies beyond the code.
    FetchOutOfBounds,
    /// An instruction's operand lies beyond the code.
    OperandOutOfBounds,
    /// A field name index beyond the module's strings.
    StringIndex(u32),
}

/// The opcodes that this VM does not run.
#[derive(Debug, Clone, Copy, PartialEq, Eq, Structural)]
pub enum UnsupportedOp {
    CallMethod,
    CallVirtual,
    Rot3,
    Rot4,
    CastImplicit,
    Shl,
    Shr,
    Rol,
    Ror,
}

/// The name of an unsupported opcode, as its trap shows it.
pub open spec fn unsupported_name(op: UnsupportedOp) -> Seq<char> {
    match op {
        UnsupportedOp::CallMethod => "CALL_METHOD"@,
        UnsupportedOp::CallVirtual => "CALL_VIRTUAL"@,
        UnsupportedOp::Rot3 => "ROT3"@,
        UnsupportedOp::Rot4 => "ROT4"@,
        UnsupportedOp::CastImplicit => "CAST_IMPLICIT"@,
        UnsupportedOp::Shl => "SHL"@,
        UnsupportedOp::Shr => "SHR"@,
        UnsupportedOp::Rol => "ROL"@,
        UnsupportedOp::Ror => "ROR"@,
    }
}

impl UnsupportedOp {
    /// The opcode's name.
    pub fn name(&self) -> (s: &'static str)
        ensures
            s@ == unsupported_name(*self),
    {
        match self {
            UnsupportedOp::CallMethod => "CALL_METHOD",
            UnsupportedOp::CallVirtual => "CALL_VIRTUAL",
            UnsupportedOp::Rot3 => "ROT3",
            UnsupportedOp::Rot4 => "ROT4",
            UnsupportedOp::CastImplicit => "CAST_IMPLICIT",
            UnsupportedOp::Shl => "SHL",
            UnsupportedOp::Shr => "SHR",
            UnsupportedOp::Rol => "ROL",
            UnsupportedOp::Ror => "ROR",
        }
    }
}

/// Faults of the bytecode VM.
#[derive(Debug, Clone, Copy, PartialEq, Eq, Structural)]
pub enum VmTrap {
    StackUnderflow,
    InvalidJumpTarget(i128),
    BudgetExceeded,
    DeadlineExceeded,
    /// Bytes of the code that cannot be decoded, and why.
    BytecodeDecode(DecodeFault),
    ForStepZero,
    ConditionNotBool,
    /// An opcode that this VM does not run.
    UnsupportedOpcode(UnsupportedOp),
    InvalidConstIndex(u32),
    InvalidOpcode(u8),
    /// A call of a POU id beyond the module's POUs.
    InvalidPou(u32),
    /// `SELF` or `SUPER` in a frame without an instance.
    TypeMismatch,
}

/// What a step did.
#[derive(Debug, Clone, Copy, PartialEq, Eq, Structural)]
pub enum Step {
    /// An instruction ran, or a frame ended; step again.
    Continue,
    /// The last frame returned.
    Finished,
    /// The instruction needs the host.
    Host(HostRequest),
}

/// The state of one execution: the program counter, the instructions left, the call
/// frames and the operand stack.
pub struct VmState {
    pub pc: usize,
    pub budget: u64,
    pub frames: Vec<Frame>,
    pub stack: Vec<VmValue>,
}

/// The model of a [`VmState`].
pub struct StateModel {
    pub pc: usize,
    pub budget: u64,
    pub frames: Seq<Frame>,
    pub stack: Seq<VmValue>,
}

impl View for VmState {
    type V = StateModel;

    open spec fn view(&self) -> StateModel {
        StateModel { pc: self.pc, budget: self.budget, frames: self.frames@, stack: self.stack@ }
    }
}

/// The model of a [`VmModule`]: what execution reads of it.
pub struct ModuleModel {
    pub code: Seq<u8>,
    pub consts: Seq<VmValue>,
    pub pous: Seq<PouCode>,
    pub strings_len: nat,
    /// The keys of the debug map, `(pou_id, pc)`, entry by entry.
    pub debug_keys: Seq<(u32, u32)>,
}

impl View for VmModule {
    type V = ModuleModel;

    open spec fn view(&self) -> ModuleModel {
        ModuleModel {
            code: self.code@,
            consts: self.consts@,
            pous: self.pous@,
            strings_len: self.strings@.len(),
            debug_keys: Seq::new(
                self.debug_map@.len(),
                |i: int| (self.debug_map@[i].pou_id, self.debug_map@[i].pc),
            ),
        }
    }
}

/// The little-endian `u32` whose bytes start at `pc`, if the code holds them.
pub open spec fn read_u32_at(code: Seq<u8>, pc: int) -> Option<u32> {
    if 0 <= pc && pc + 4 <= code.len() {
        Some(
            (code[pc] as int + code[pc + 1] as int * 0x100 + code[pc + 2] as int * 0x1_0000
                + code[pc + 3] as int * 0x100_0000) as u32,
        )
    } else {
        None
    }
}

/// The two's complement `i32` of a `u32`.
pub open spec fn as_i32(v: u32) -> i32 {
    if v < 0x8000_0000 {
        v as i32
    } else {
        (v - 0x1_0000_0000) as i32
    }
}

/// The target of a relative jump: it must lie within the frame's code.
pub open spec fn jump_target(pc: int, offset: i32, frame: Frame) -> Result<usize, VmTrap> {
    let target = pc + offset;
    if target < frame.code_start || target > frame.code_end {
        Err(VmTrap::InvalidJumpTarget(target as i128))
    } else {
        Ok(target as usize)
    }
}

/// The frame a call of `pou_id` pushes, if the module has that POU.
pub open spec fn call_frame(m: ModuleModel, pou_id: u32, return_pc: usize, instance: Option<u64>) -> Result<
    Frame,
    VmTrap,
> {
    if pou_id < m.pous.len() {
        let code = m.pous[pou_id as int];
        Ok(
            Frame {
                pou_id,
                code_start: code.code_start,
                code_end: code.code_end,
                return_pc,
                runtime_instance: instance,
            },
        )
    } else {
        Err(VmTrap::InvalidPou(pou_id))
    }
}

/// The binary operator of an opcode.
pub open spec fn binary_op_of(op: u8) -> Option<BinaryOp> {
    if op == 0x40 {
        Some(BinaryOp::Add)
    } else if op == 0x41 {
        Some(BinaryOp::Sub)
    } else if op == 0x42 {
        Some(BinaryOp::Mul)
    } else if op == 0x43 {
        Some(BinaryOp::Div)
    } else if op == 0x44 {
        Some(BinaryOp::Mod)
    } else if op == 0x46 {
        Some(BinaryOp::And)
    } else if op == 0x47 {
        Some(BinaryOp::Or)
    } else if op == 0x48 {
        Some(BinaryOp::Xor)
    } else if op == 0x4C {
        Some(BinaryOp::Pow)
    } else if op == 0x50 {
        Some(BinaryOp::Eq)
    } else if op == 0x51 {
        Some(BinaryOp::Ne)
    } else if op == 0x52 {
        Some(BinaryOp::Lt)
    } else if op == 0x53 {
        Some(BinaryOp::Le)
    } else if op == 0x54 {
        Some(BinaryOp::Gt)
    } else if op == 0x55 {
        Some(BinaryOp::Ge)
    } else {
        None
    }
}

/// The opcodes that this VM leaves unsupported.
pub open spec fn unsupported_op(op: u8) -> Option<UnsupportedOp> {
    if op == 0x07 {
        Some(UnsupportedOp::CallMethod)
    } else if op == 0x08 {
        Some(UnsupportedOp::CallVirtual)
    } else if op == 0x14 {
        Some(UnsupportedOp::Rot3)
    } else if op == 0x15 {
        Some(UnsupportedOp::Rot4)
    } else if op == 0x16 {
        Some(UnsupportedOp::CastImplicit)
    } else if op == 0x4A {
        Some(UnsupportedOp::Shl)
    } else if op == 0x4B {
        Some(UnsupportedOp::Shr)
    } else if op == 0x4D {
        Some(UnsupportedOp::Rol)
    } else if op == 0x4E {
        Some(UnsupportedOp::Ror)
    } else {
        None
    }
}

fn unsupported_op_exec(op: u8) -> (r: Option<UnsupportedOp>)
    ensures
        r == unsupported_op(op),
{
    if op == 0x07 {
        Some(UnsupportedOp::CallMethod)
    } else if op == 0x08 {
        Some(UnsupportedOp::CallVirtual)
    } else if op == 0x14 {
        Some(UnsupportedOp::Rot3)
    } else if op == 0x15 {
        Some(UnsupportedOp::Rot4)
    } else if op == 0x16 {
        Some(UnsupportedOp::CastImplicit)
    } else if op == 0x4A {
        Some(UnsupportedOp::Shl)
    } else if op == 0x4B {
        Some(UnsupportedOp::Shr)
    } else if op == 0x4D {
        Some(UnsupportedOp::Rol)
    } else if op == 0x4E {
        Some(UnsupportedOp::Ror)
    } else {
        None
    }
}

/// A state with a new program counter.
pub open spec fn at_pc(s: StateModel, pc: usize) -> StateModel {
    StateModel { pc, ..s }
}

/// The effect of the instruction `op` whose operands start at `pc` (just after the
/// opcode) in state `s`, whose frames are not empty.
pub open spec fn execute_op(m: ModuleModel, s: StateModel, op: u8, pc: usize) -> Result<
    (Step, StateModel),
    VmTrap,
> {
    let frame = s.frames.last();
    let u1 = read_u32_at(m.code, pc as int);
    let u2 = read_u32_at(m.code, pc + 4);
    let u3 = read_u32_at(m.code, pc + 8);
    if op == 0x00 {
        Ok((Step::Continue, at_pc(s, pc)))
    } else if op == 0x01 {
        Err(VmTrap::ForStepZero)
    } else if op == 0x02 {
        match u1 {
            None => Err(VmTrap::BytecodeDecode(DecodeFault::OperandOutOfBounds)),
            Some(v) => match jump_target(pc + 4, as_i32(v), frame) {
                Ok(t) => Ok((Step::Continue, at_pc(s, t))),
                Err(e) => Err(e),
            },
        }
    } else if op == 0x03 || op == 0x04 {
        match u1 {
            None => Err(VmTrap::BytecodeDecode(DecodeFault::OperandOutOfBounds)),
            Some(v) => if s.stack.len() == 0 {
                Err(VmTrap::StackUnderflow)
            } else {
                match s.stack.last() {
                    VmValue::Bool(c) => {
                        let popped = StateModel { stack: s.stack.drop_last(), ..s };
                        if (op == 0x03 && c) || (op == 0x04 && !c) {
                            match jump_target(pc + 4, as_i32(v), frame) {
                                Ok(t) => Ok((Step::Continue, at_pc(popped, t))),
                                Err(e) => Err(e),
                            }
                        } else {
                            Ok((Step::Continue, at_pc(popped, (pc + 4) as usize)))
                        }
                    },
                    _ => Err(VmTrap::ConditionNotBool),
                }
            },
        }
    } else if op == 0x05 {
        match u1 {
            None => Err(VmTrap::BytecodeDecode(DecodeFault::OperandOutOfBounds)),
            Some(callee) => match call_frame(
                m,
                callee,
                (pc + 4) as usize,
                frame.runtime_instance,
            ) {
                Ok(f) => Ok(
                    (
                        Step::Continue,
                        StateModel { pc: f.code_start, frames: s.frames.push(f), ..s },
                    ),
                ),
                Err(e) => Err(e),
            },
        }
    } else if op == 0x06 {
        let rest = s.frames.drop_last();
        if rest.len() == 0 {
            Ok((Step::Finished, StateModel { pc, frames: rest, ..s }))
        } else {
            Ok((Step::Continue, StateModel { pc: frame.return_pc, frames: rest, ..s }))
        }
    } else if unsupported_op(op) is Some {
        Err(VmTrap::UnsupportedOpcode(unsupported_op(op)->0))
    } else if op == 0x09 {
        match (u1, u2, u3) {
            (Some(kind), Some(symbol), Some(arg_count)) => Ok(
                (
                    Step::Host(HostRequest::NativeCall { kind, symbol, arg_count }),
                    at_pc(s, (pc + 12) as usize),
                ),
            ),
            _ => Err(VmTrap::BytecodeDecode(DecodeFault::OperandOutOfBounds)),
        }
    } else if op == 0x10 {
        match u1 {
            None => Err(VmTrap::BytecodeDecode(DecodeFault::OperandOutOfBounds)),
            Some(idx) => if idx < m.consts.len() {
                Ok(
                    (
                        Step::Continue,
                        StateModel {
                            pc: (pc + 4) as usize,
                            stack: s.stack.push(m.consts[idx as int]),
                            ..s
                        },
                    ),
                )
            } else {
                Err(VmTrap::InvalidConstIndex(idx))
            },
        }
    } else if op == 0x11 {
        if s.stack.len() == 0 {
            Err(VmTrap::StackUnderflow)
        } else {
            Ok((Step::Continue, StateModel { pc, stack: s.stack.push(s.stack.last()), ..s }))
        }
    } else if op == 0x12 {
        if s.stack.len() == 0 {
            Err(VmTrap::StackUnderflow)
        } else {
            Ok((Step::Continue, StateModel { pc, stack: s.stack.drop_last(), ..s }))
        }
    } else if op == 0x13 {
        if s.stack.len() < 2 {
            Err(VmTrap::StackUnderflow)
        } else {
            let n = s.stack.len() as int;
            Ok(
                (
                    Step::Continue,
                    StateModel {
                        pc,
                        stack: s.stack.update(n - 1, s.stack[n - 2]).update(n - 2, s.stack[n - 1]),
                        ..s
                    },
                ),
            )
        }
    } else if op == 0x20 || op == 0x21 || op == 0x22 || op == 0x30 || op == 0x60 {
        match u1 {
            None => Err(VmTrap::BytecodeDecode(DecodeFault::OperandOutOfBounds)),
            Some(idx) => if op == 0x30 && idx >= m.strings_len {
                Err(VmTrap::BytecodeDecode(DecodeFault::StringIndex(idx)))
            } else {
                let req = if op == 0x20 {
                    HostRequest::LoadRef(idx)
                } else if op == 0x21 {
                    HostRequest::StoreRef(idx)
                } else if op == 0x22 {
                    HostRequest::LoadRefAddr(idx)
                } else if op == 0x30 {
                    HostRequest::RefField(idx)
                } else {
                    HostRequest::SizeofType(idx)
                };
                Ok((Step::Host(req), at_pc(s, (pc + 4) as usize)))
            },
        }
    } else if op == 0x23 {
        match frame.runtime_instance {
            Some(id) => Ok((Step::Continue, StateModel { pc, stack: s.stack.push(VmValue::Instance(id)), ..s })),
            None => Err(VmTrap::TypeMismatch),
        }
    } else if op == 0x24 {
        match frame.runtime_instance {
            Some(id) => Ok((Step::Host(HostRequest::Super(id)), at_pc(s, pc))),
            None => Err(VmTrap::TypeMismatch),
        }
    } else if op == 0x31 {
        Ok((Step::Host(HostRequest::RefIndex), at_pc(s, pc)))
    } else if op == 0x32 {
        Ok((Step::Host(HostRequest::LoadDynamic), at_pc(s, pc)))
    } else if op == 0x33 {
        Ok((Step::Host(HostRequest::StoreDynamic), at_pc(s, pc)))
    } else if binary_op_of(op) is Some {
        Ok((Step::Host(HostRequest::Binary(binary_op_of(op)->0)), at_pc(s, pc)))
    } else if op == 0x45 {
        Ok((Step::Host(HostRequest::Unary(UnaryOp::Neg)), at_pc(s, pc)))
    } else if op == 0x49 {
        Ok((Step::Host(HostRequest::Unary(UnaryOp::Not)), at_pc(s, pc)))
    } else if op == 0x61 {
        Ok((Step::Host(HostRequest::SizeofValue), at_pc(s, pc)))
    } else if op == 0x70 {
        match u1 {
            None => Err(VmTrap::BytecodeDecode(DecodeFault::OperandOutOfBounds)),
            Some(_) => Ok((Step::Continue, at_pc(s, (pc + 4) as usize))),
        }
    } else {
        Err(VmTrap::InvalidOpcode(op))
    }
}

/// One step of execution, when the deadline has `deadline_passed` or not: a frame
/// whose code is done returns; otherwise one instruction runs, within the frame's
/// code, the budget and the deadline. On a trap the state stays as it was.
pub open spec fn step_spec(m: ModuleModel, s: StateModel, deadline_passed: bool) -> Result<
    (Step, StateModel),
    VmTrap,
> {
    if s.frames.len() == 0 {
        Ok((Step::Finished, s))
    } else {
        let frame = s.frames.last();
        if s.pc == frame.code_end {
            let rest = s.frames.drop_last();
            if rest.len() == 0 {
                Ok((Step::Finished, StateModel { frames: rest, ..s }))
            } else {
                Ok((Step::Continue, StateModel { pc: frame.return_pc, frames: rest, ..s }))
            }
        } else if s.pc < frame.code_start || s.pc > frame.code_end {
            Err(VmTrap::InvalidJumpTarget(s.pc as i128))
        } else if s.budget == 0 {
            Err(VmTrap::BudgetExceeded)
        } else if deadline_passed {
            Err(VmTrap::DeadlineExceeded)
        } else if s.pc >= m.code.len() {
            Err(VmTrap::BytecodeDecode(DecodeFault::FetchOutOfBounds))
        } else {
            let spent = StateModel { budget: (s.budget - 1) as u64, ..s };
            execute_op(m, spent, m.code[s.pc as int], (s.pc + 1) as usize)
        }
    }
}

/// The little-endian `u32` at `pc`.
fn read_u32(code: &Vec<u8>, pc: usize) -> (r: Option<u32>)
    ensures
        r == read_u32_at(code@, pc as int),
{
    if pc <= code.len() && code.len() - pc >= 4 {
        let v: u32 = code[pc] as u32 + code[pc + 1] as u32 * 0x100 + code[pc + 2] as u32 * 0x1_0000
            + code[pc + 3] as u32 * 0x100_0000;
        Some(v)
    } else {
        None
    }
}

fn to_i32(v: u32) -> (r: i32)
    ensures
        r == as_i32(v),
{
    if v < 0x8000_0000 {
        v as i32
    } else {
        (v as i64 - 0x1_0000_0000i64) as i32
    }
}

fn jump(pc: usize, offset: i32, frame: &Frame) -> (r: Result<usize, VmTrap>)
    ensures
        r == jump_target(pc as int, offset, *frame),
{
    let target: i128 = pc as i128 + offset as i128;
    if target < frame.code_start as i128 || target > frame.code_end as i128 {
        Err(VmTrap::InvalidJumpTarget(target))
    } else {
        Ok(target as usize)
    }
}

fn make_call_frame(m: &VmModule, pou_id: u32, return_pc: usize, instance: Option<u64>) -> (r: Result<
    Frame,
    VmTrap,
>)
    ensures
        r == call_frame(m@, pou_id, return_pc, instance),
{
    if (pou_id as usize) < m.pous.len() {
        let code = m.pous[pou_id as usize];
        Ok(
            Frame {
                pou_id,
                code_start: code.code_start,
                code_end: code.code_end,
                return_pc,
                runtime_instance: instance,
            },
        )
    } else {
        Err(VmTrap::InvalidPou(pou_id))
    }
}

fn binary_op_exec(op: u8) -> (r: Option<BinaryOp>)
    ensures
        r == binary_op_of(op),
{
    if op == 0x40 {
        Some(BinaryOp::Add)
    } else if op == 0x41 {
        Some(BinaryOp::Sub)
    } else if op == 0x42 {
        Some(BinaryOp::Mul)
    } else if op == 0x43 {
        Some(BinaryOp::Div)
    } else if op == 0x44 {
        Some(BinaryOp::Mod)
    } else if op == 0x46 {
        Some(BinaryOp::And)
    } else if op == 0x47 {
        Some(BinaryOp::Or)
    } else if op == 0x48 {
        Some(BinaryOp::Xor)
    } else if op == 0x4C {
        Some(BinaryOp::Pow)
    } else if op == 0x50 {
        Some(BinaryOp::Eq)
    } else if op == 0x51 {
        Some(BinaryOp::Ne)
    } else if op == 0x52 {
        Some(BinaryOp::Lt)
    } else if op == 0x53 {
        Some(BinaryOp::Le)
    } else if op == 0x54 {
        Some(BinaryOp::Gt)
    } else if op == 0x55 {
        Some(BinaryOp::Ge)
    } else {
        None
    }
}

/// The outcome `r` of a transition from `before` to `after` follows `spec`: on success
/// the state moved as the spec says; on a trap it stayed.
pub open spec fn follows(
    spec: Result<(Step, StateModel), VmTrap>,
    r: Result<Step, VmTrap>,
    before: StateModel,
    after: StateModel,
) -> bool {
    match spec {
        Ok((st, s2)) => r == Ok::<Step, VmTrap>(st) && after == s2,
        Err(e) => r == Err::<Step, VmTrap>(e) && after == before,
    }
}

impl VmState {
    /// The state in which a call of POU `pou_id` starts, for `instance`, with the
    /// module's budget.
    pub fn start(module: &VmModule, pou_id: u32, instance: Option<u64>) -> (r: Result<VmState, VmTrap>)
        ensures
            match call_frame(module@, pou_id, usize::MAX, instance) {
                Ok(f) => r matches Ok(st) && st@ == (StateModel {
                    pc: f.code_start,
                    budget: module.instruction_budget,
                    frames: seq![f],
                    stack: Seq::empty(),
                }),
                Err(e) => r == Err::<VmState, VmTrap>(e),
            },
    {
        match make_call_frame(module, pou_id, usize::MAX, instance) {
            Ok(f) => {
                let mut frames = Vec::new();
                frames.push(f);
                let st = VmState {
                    pc: f.code_start,
                    budget: module.instruction_budget,
                    frames,
                    stack: Vec::new(),
                };
                assert(st.frames@ =~= seq![f]);
                Ok(st)
            },
            Err(e) => Err(e),
        }
    }

    fn execute_op(&mut self, m: &VmModule, op: u8, pc: usize) -> (r: Result<Step, VmTrap>)
        requires
            old(self).frames@.len() > 0,
        ensures
            follows(execute_op(m@, old(self)@, op, pc), r, old(self)@, final(self)@),
    {
        let ghost s = self@;
        let code_len = m.code.len();
        let frame = self.frames[self.frames.len() - 1];
        let u1 = read_u32(&m.code, pc);
        if op == 0x00 {
            self.pc = pc;
            Ok(Step::Continue)
        } else if op == 0x01 {
            Err(VmTrap::ForStepZero)
        } else if op == 0x02 {
            match u1 {
                None => Err(VmTrap::BytecodeDecode(DecodeFault::OperandOutOfBounds)),
                Some(v) => {
                    assert(pc + 4 <= code_len);
                    match jump(pc + 4, to_i32(v), &frame) {
                        Ok(t) => {
                            self.pc = t;
                            Ok(Step::Continue)
                        },
                        Err(e) => Err(e),
                    }
                },
            }
        } else if op == 0x03 || op == 0x04 {
            match u1 {
                None => Err(VmTrap::BytecodeDecode(DecodeFault::OperandOutOfBounds)),
                Some(v) => {
                    let n = self.stack.len();
                    if n == 0 {
                        return Err(VmTrap::StackUnderflow);
                    }
                    match self.stack[n - 1] {
                        VmValue::Bool(c) => {
                            let next: usize = pc + 4;
                            if (op == 0x03 && c) || (op == 0x04 && !c) {
                                match jump(next, to_i32(v), &frame) {
                                    Ok(t) => {
                                        self.stack.pop();
                                        self.pc = t;
                                        assert(self.stack@ =~= s.stack.drop_last());
                                        Ok(Step::Continue)
                                    },
                                    Err(e) => Err(e),
                                }
                            } else {
                                self.stack.pop();
                                self.pc = next;
                                assert(self.stack@ =~= s.stack.drop_last());
                                Ok(Step::Continue)
                            }
                        },
                        _ => Err(VmTrap::ConditionNotBool),
                    }
                },
            }
        } else if op == 0x05 {
            match u1 {
                None => Err(VmTrap::BytecodeDecode(DecodeFault::OperandOutOfBounds)),
                Some(callee) => match make_call_frame(m, callee, pc + 4, frame.runtime_instance) {
                    Ok(f) => {
                        self.frames.push(f);
                        self.pc = f.code_start;
                        Ok(Step::Continue)
                    },
                    Err(e) => Err(e),
                },
            }
        } else if op == 0x06 {
            self.frames.pop();
            if self.frames.len() == 0 {
                self.pc = pc;
                Ok(Step::Finished)
            } else {
                self.pc = frame.return_pc;
                Ok(Step::Continue)
            }
        } else if let Some(u) = unsupported_op_exec(op) {
            Err(VmTrap::UnsupportedOpcode(u))
        } else if op == 0x09 {
            match u1 {
                None => Err(VmTrap::BytecodeDecode(DecodeFault::OperandOutOfBounds)),
                Some(kind) => {
                    let u2 = read_u32(&m.code, pc + 4);
                    match u2 {
                        None => Err(VmTrap::BytecodeDecode(DecodeFault::OperandOutOfBounds)),
                        Some(symbol) => {
                            let u3 = read_u32(&m.code, pc + 8);
                            match u3 {
                                None => Err(VmTrap::BytecodeDecode(DecodeFault::OperandOutOfBounds)),
                                Some(arg_count) => {
                                    self.pc = pc + 12;
                                    Ok(Step::Host(HostRequest::NativeCall { kind, symbol, arg_count }))
                                },
                            }
                        },
                    }
                },
            }
        } else if op == 0x10 {
            match u1 {
                None => Err(VmTrap::BytecodeDecode(DecodeFault::OperandOutOfBounds)),
                Some(idx) => {
                    if (idx as usize) < m.consts.len() {
                        let v = m.consts[idx as usize];
                        self.stack.push(v);
                        self.pc = pc + 4;
                        Ok(Step::Continue)
                    } else {
                        Err(VmTrap::InvalidConstIndex(idx))
                    }
                },
            }
        } else if op == 0x11 {
            let n = self.stack.len();
            if n == 0 {
                Err(VmTrap::StackUnderflow)
            } else {
                let top = self.stack[n - 1];
                self.stack.push(top);
                self.pc = pc;
                Ok(Step::Continue)
            }
        } else if op == 0x12 {
            if self.stack.len() == 0 {
                Err(VmTrap::StackUnderflow)
            } else {
                self.stack.pop();
                self.pc = pc;
                assert(self.stack@ =~= s.stack.drop_last());
                Ok(Step::Continue)
            }
        } else if op == 0x13 {
            let n = self.stack.len();
            if n < 2 {
                Err(VmTrap::StackUnderflow)
            } else {
                let a = self.stack[n - 2];
                let b = self.stack[n - 1];
                self.stack.set(n - 1, a);
                self.stack.set(n - 2, b);
                self.pc = pc;
                Ok(Step::Continue)
            }
        } else if op == 0x20 || op == 0x21 || op == 0x22 || op == 0x30 || op == 0x60 {
            match u1 {
                None => Err(VmTrap::BytecodeDecode(DecodeFault::OperandOutOfBounds)),
                Some(idx) => {
                    if op == 0x30 && (idx as usize) >= m.strings.len() {
                        return Err(VmTrap::BytecodeDecode(DecodeFault::StringIndex(idx)));
                    }
                    let req = if op == 0x20 {
                        HostRequest::LoadRef(idx)
                    } else if op == 0x21 {
                        HostRequest::StoreRef(idx)
                    } else if op == 0x22 {
                        HostRequest::LoadRefAddr(idx)
                    } else if op == 0x30 {
                        HostRequest::RefField(idx)
                    } else {
                        HostRequest::SizeofType(idx)
                    };
                    self.pc = pc + 4;
                    Ok(Step::Host(req))
                },
            }
        } else if op == 0x23 {
            match frame.runtime_instance {
                Some(id) => {
                    self.stack.push(VmValue::Instance(id));
                    self.pc = pc;
                    Ok(Step::Continue)
                },
                None => Err(VmTrap::TypeMismatch),
            }
        } else if op == 0x24 {
            match frame.runtime_instance {
                Some(id) => {
                    self.pc = pc;
                    Ok(Step::Host(HostRequest::Super(id)))
                },
                None => Err(VmTrap::TypeMismatch),
            }
        } else if op == 0x31 {
            self.pc = pc;
            Ok(Step::Host(HostRequest::RefIndex))
        } else if op == 0x32 {
            self.pc = pc;
            Ok(Step::Host(HostRequest::LoadDynamic))
        } else if op == 0x33 {
            self.pc = pc;
            Ok(Step::Host(HostRequest::StoreDynamic))
        } else if let Some(b) = binary_op_exec(op) {
            self.pc = pc;
            Ok(Step::Host(HostRequest::Binary(b)))
        } else if op == 0x45 {
            self.pc = pc;
            Ok(Step::Host(HostRequest::Unary(UnaryOp::Neg)))
        } else if op == 0x49 {
            self.pc = pc;
            Ok(Step::Host(HostRequest::Unary(UnaryOp::Not)))
        } else if op == 0x61 {
            self.pc = pc;
            Ok(Step::Host(HostRequest::SizeofValue))
        } else if op == 0x70 {
            match u1 {
                None => Err(VmTrap::BytecodeDecode(DecodeFault::OperandOutOfBounds)),
                Some(_) => {
                    self.pc = pc + 4;
                    Ok(Step::Continue)
                },
            }
        } else {
            Err(VmTrap::InvalidOpcode(op))
        }
    }

    /// Runs one step: see [`step_spec`].
    pub fn step(&mut self, module: &VmModule, deadline_passed: bool) -> (r: Result<Step, VmTrap>)
        ensures
            follows(step_spec(module@, old(self)@, deadline_passed), r, old(self)@, final(self)@),
    {
        let n = self.frames.len();
        if n == 0 {
            return Ok(Step::Finished);
        }
        let frame = self.frames[n - 1];
        if self.pc == frame.code_end {
            self.frames.pop();
            if self.frames.len() == 0 {
                return Ok(Step::Finished);
            }
            self.pc = frame.return_pc;
            return Ok(Step::Continue);
        }
        if self.pc < frame.code_start || self.pc > frame.code_end {
            return Err(VmTrap::InvalidJumpTarget(self.pc as i128));
        }
        if self.budget == 0 {
            return Err(VmTrap::BudgetExceeded);
        }
        if deadline_passed {
            return Err(VmTrap::DeadlineExceeded);
        }
        if self.pc >= module.code.len() {
            return Err(VmTrap::BytecodeDecode(DecodeFault::FetchOutOfBounds));
        }
        let op = module.code[self.pc];
        let saved = self.budget;
        self.budget = saved - 1;
        let r = self.execute_op(module, op, self.pc + 1);
        if r.is_err() {
            self.budget = saved;
        }
        r
    }
}

/// A statement that a step reaches before its instruction runs: the host reports the
/// source position of debug map entry `entry` to a debug hook, at call depth
/// `call_depth` (the number of active frames less one).
#[derive(Debug, Clone, Copy, PartialEq, Eq, Structural)]
pub struct StatementReport {
    pub entry: usize,
    pub call_depth: u32,
}

/// The first debug map entry, from `i` on, whose key is `key`.
pub open spec fn debug_entry_from(keys: Seq<(u32, u32)>, key: (u32, u32), i: nat) -> Option<nat>
    decreases keys.len() - i,
{
    if i >= keys.len() {
        None
    } else if keys[i as int] == key {
        Some(i)
    } else {
        debug_entry_from(keys, key, i + 1)
    }
}

/// The statement that a step from `s` reports: one is reported when the step runs an
/// instruction (the frame's code is not done, the program counter lies within it, and
/// neither the budget nor the deadline stops it) and the debug map has an entry for the
/// frame's POU at the program counter, taken as a `u32`.
pub open spec fn statement_spec(m: ModuleModel, s: StateModel, deadline_passed: bool) -> Option<
    StatementReport,
> {
    if s.frames.len() > 0 {
        let frame = s.frames.last();
        if s.pc != frame.code_end && frame.code_start <= s.pc <= frame.code_end && s.budget > 0
            && !deadline_passed {
            match debug_entry_from(m.debug_keys, (frame.pou_id, s.pc as u32), 0) {
                Some(i) => Some(
                    StatementReport { entry: i as usize, call_depth: (s.frames.len() - 1) as u32 },
                ),
                None => None,
            }
        } else {
            None
        }
    } else {
        None
    }
}

impl VmState {
    /// The statement that the next step reports to a debug hook, if any: see
    /// [`statement_spec`]. A host with a debug hook asks before each step.
    pub fn statement_at(&self, module: &VmModule, deadline_passed: bool) -> (r: Option<
        StatementReport,
    >)
        ensures
            r == statement_spec(module@, self@, deadline_passed),
    {
        let n = self.frames.len();
        if n == 0 {
            return None;
        }
        let frame = self.frames[n - 1];
        if self.pc == frame.code_end || self.pc < frame.code_start || self.pc > frame.code_end
            || self.budget == 0 || deadline_passed {
            return None;
        }
        let pc = #[verifier::truncate] (self.pc as u32);
        let depth = #[verifier::truncate] ((n - 1) as u32);
        let ghost keys = module@.debug_keys;
        let mut i: usize = 0;
        while i < module.debug_map.len()
            invariant
                keys == module@.debug_keys,
                i <= module.debug_map@.len(),
                n == self.frames@.len(),
                n > 0,
                frame == self.frames@[n - 1],
                pc == self.pc as u32,
                depth == (n - 1) as u32,
                self.pc != frame.code_end,
                frame.code_start <= self.pc <= frame.code_end,
                self.budget > 0,
                !deadline_passed,
                debug_entry_from(keys, (frame.pou_id, pc), 0) == debug_entry_from(
                    keys,
                    (frame.pou_id, pc),
                    i as nat,
                ),
            decreases module.debug_map.len() - i,
        {
            let e = &module.debug_map[i];
            assert(keys[i as int] == (e.pou_id, e.pc));
            if e.pou_id == frame.pou_id && e.pc == pc {
                return Some(StatementReport { entry: i, call_depth: depth });
            }
            i = i + 1;
        }
        None
    }
}

/// Where the debug map's keys occur once, a key finds its only entry: the lookup gives
/// what a map from keys would.
pub proof fn lemma_unique_debug_entry(keys: Seq<(u32, u32)>, key: (u32, u32), i: int)
    requires
        keys.no_duplicates(),
        0 <= i < keys.len(),
        keys[i] == key,
    ensures
        debug_entry_from(keys, key, 0) == Some(i as nat),
{
    lemma_unique_debug_entry_from(keys, key, i, 0);
}

proof fn lemma_unique_debug_entry_from(keys: Seq<(u32, u32)>, key: (u32, u32), i: int, j: nat)
    requires
        keys.no_duplicates(),
        j <= i < keys.len(),
        keys[i] == key,
    ensures
        debug_entry_from(keys, key, j) == Some(i as nat),
    decreases i - j,
{
    if j < i {
        assert(keys[j as int] != keys[i]);
        lemma_unique_debug_entry_from(keys, key, i, j + 1);
    }
}

/// A statement is reported only right before an instruction runs: when a step from
/// `s` reports one, the step passes the frame, budget and deadline checks and runs the
/// instruction at the program counter (or fails to fetch it).
pub proof fn lemma_statement_before_instruction(m: ModuleModel, s: StateModel, deadline_passed: bool)
    requires
        statement_spec(m, s, deadline_passed) is Some,
    ensures
        at_instruction(s),
        s.pc < m.code.len() ==> step_spec(m, s, deadline_passed) == execute_op(
            m,
            StateModel { budget: (s.budget - 1) as u64, ..s },
            m.code[s.pc as int],
            (s.pc + 1) as usize,
        ),
        s.pc >= m.code.len() ==> step_spec(m, s, deadline_passed) == Err::<(Step, StateModel), VmTrap>(
            VmTrap::BytecodeDecode(DecodeFault::FetchOutOfBounds),
        ),
{
}

/// Whether state `s` stands at an instruction of its current frame: a step will run
/// that instruction rather than end the frame.
pub open spec fn at_instruction(s: StateModel) -> bool {
    s.frames.len() > 0 && s.pc != s.frames.last().code_end
}

/// Each step that runs an instruction spends exactly one unit of the budget, and a
/// frame that ends spends none; so an execution runs at most as many instructions as
/// its budget. A trap changes nothing.
pub proof fn lemma_budget_per_instruction(m: ModuleModel, s: StateModel, deadline_passed: bool)
    ensures
        match step_spec(m, s, deadline_passed) {
            Ok((_, s2)) => if at_instruction(s) {
                s2.budget + 1 == s.budget
            } else {
                s2.budget == s.budget && (s.frames.len() > 0 ==> s2.frames.len() + 1
                    == s.frames.len())
            },
            Err(_) => true,
        },
{
}

/// A return resumes the caller right after its call: if a `CALL` step led from `s` to
/// `s2`, then a `RET` run while the frames are those of `s2` leads back to the
/// caller's frames, at the instruction after the `CALL` and its operand, with the
/// operand stack as the callee left it.
pub proof fn lemma_return_resumes_after_call(
    m: ModuleModel,
    s: StateModel,
    s2: StateModel,
    s3: StateModel,
)
    requires
        at_instruction(s),
        s.pc < m.code.len(),
        m.code[s.pc as int] == 0x05,
        step_spec(m, s, false) == Ok::<(Step, StateModel), VmTrap>((Step::Continue, s2)),
        s3.frames == s2.frames,
        at_instruction(s3),
        s3.frames.last().code_start <= s3.pc <= s3.frames.last().code_end,
        s3.pc < m.code.len(),
        m.code[s3.pc as int] == 0x06,
        s3.budget > 0,
    ensures
        step_spec(m, s3, false) == Ok::<(Step, StateModel), VmTrap>(
            (
                Step::Continue,
                StateModel {
                    pc: (s.pc + 5) as usize,
                    budget: (s3.budget - 1) as u64,
                    frames: s.frames,
                    stack: s3.stack,
                },
            ),
        ),
{
    assert(s2.frames == s.frames.push(s2.frames.last()));
    assert(s3.frames.drop_last() =~= s.frames);
}

/// Conditional jumps: with `Bool(c)` on top of the stack, `JUMP_IF_FALSE` (0x04) pops it
/// and jumps (to the end of its operand plus the offset) exactly when `c` is false, and
/// goes on after its operand when `c` is true; `JUMP_IF_TRUE` (0x03) does the opposite.
pub proof fn lemma_conditional_jump(m: ModuleModel, s: StateModel, op: u8, pc: usize, c: bool, offset: u32)
    requires
        op == 0x03 || op == 0x04,
        s.frames.len() > 0,
        s.stack.len() > 0,
        s.stack.last() == VmValue::Bool(c),
        read_u32_at(m.code, pc as int) == Some(offset),
        s.frames.last().code_start <= pc + 4 + as_i32(offset) <= s.frames.last().code_end,
    ensures
        ({
            let jumps = if op == 0x04 { !c } else { c };
            execute_op(m, s, op, pc) == Ok::<(Step, StateModel), VmTrap>(
                (
                    Step::Continue,
                    StateModel {
                        pc: if jumps {
                            (pc + 4 + as_i32(offset)) as usize
                        } else {
                            (pc + 4) as usize
                        },
                        stack: s.stack.drop_last(),
                        ..s
                    },
                ),
            )
        }),
{
}

/// The stack instructions, stated on the operand stack: `CONST idx` pushes constant
/// `idx`; `DUP` pushes a copy of the top; `POP` drops the top; `SWAP` exchanges the two
/// topmost values; each then goes on with the next instruction, and each traps with
/// `StackUnderflow` when the stack holds fewer values than it takes. `JUMP` moves to
/// the end of its operand plus the offset.
pub proof fn lemma_stack_instructions(m: ModuleModel, s: StateModel, pc: usize, operand: u32)
    requires
        s.frames.len() > 0,
    ensures
        read_u32_at(m.code, pc as int) == Some(operand) && operand < m.consts.len() ==> execute_op(
            m,
            s,
            0x10,
            pc,
        ) == Ok::<(Step, StateModel), VmTrap>(
            (
                Step::Continue,
                StateModel {
                    pc: (pc + 4) as usize,
                    stack: s.stack + seq![m.consts[operand as int]],
                    ..s
                },
            ),
        ),
        s.stack.len() >= 1 ==> execute_op(m, s, 0x11, pc) == Ok::<(Step, StateModel), VmTrap>(
            (Step::Continue, StateModel { pc, stack: s.stack + seq![s.stack[s.stack.len() - 1]], ..s }),
        ),
        s.stack.len() >= 1 ==> execute_op(m, s, 0x12, pc) == Ok::<(Step, StateModel), VmTrap>(
            (Step::Continue, StateModel { pc, stack: s.stack.subrange(0, s.stack.len() - 1), ..s }),
        ),
        s.stack.len() >= 2 ==> execute_op(m, s, 0x13, pc) == Ok::<(Step, StateModel), VmTrap>(
            (
                Step::Continue,
                StateModel {
                    pc,
                    stack: s.stack.subrange(0, s.stack.len() - 2) + seq![
                        s.stack[s.stack.len() - 1],
                        s.stack[s.stack.len() - 2],
                    ],
                    ..s
                },
            ),
        ),
        s.stack.len() == 0 ==> execute_op(m, s, 0x11, pc) == Err::<(Step, StateModel), VmTrap>(
            VmTrap::StackUnderflow,
        ) && execute_op(m, s, 0x12, pc) == Err::<(Step, StateModel), VmTrap>(VmTrap::StackUnderflow),
        s.stack.len() < 2 ==> execute_op(m, s, 0x13, pc) == Err::<(Step, StateModel), VmTrap>(
            VmTrap::StackUnderflow,
        ),
        read_u32_at(m.code, pc as int) == Some(operand) && s.frames.last().code_start <= pc + 4
            + as_i32(operand) <= s.frames.last().code_end ==> execute_op(m, s, 0x02, pc) == Ok::<
            (Step, StateModel),
            VmTrap,
        >((Step::Continue, StateModel { pc: (pc + 4 + as_i32(operand)) as usize, ..s })),
{
    let n = s.stack.len() as int;
    if n >= 1 {
        assert(s.stack.push(s.stack.last()) =~= s.stack + seq![s.stack[n - 1]]);
        assert(s.stack.drop_last() =~= s.stack.subrange(0, n - 1));
    }
    if n >= 2 {
        assert(s.stack.update(n - 1, s.stack[n - 2]).update(n - 2, s.stack[n - 1]) =~= s.stack.subrange(
            0,
            n - 2,
        ) + seq![s.stack[n - 1], s.stack[n - 2]]);
    }
    if read_u32_at(m.code, pc as int) == Some(operand) && operand < m.consts.len() {
        assert(s.stack.push(m.consts[operand as int]) =~= s.stack + seq![m.consts[operand as int]]);
    }
}

/// Two `SWAP`s in a row leave the operand stack as it was.
pub proof fn lemma_swap_twice(m: ModuleModel, s: StateModel, pc: usize)
    requires
        s.frames.len() > 0,
        s.stack.len() >= 2,
    ensures
        execute_op(m, s, 0x13, pc) matches Ok((_, s2)) && execute_op(m, s2, 0x13, pc) matches Ok(
            (_, s3),
        ) && s3.stack == s.stack,
{
    let n = s.stack.len() as int;
    let t = s.stack.update(n - 1, s.stack[n - 2]).update(n - 2, s.stack[n - 1]);
    assert(t.update(n - 1, t[n - 2]).update(n - 2, t[n - 1]) =~= s.stack);
}

/// `DUP` then `POP` leaves the operand stack as it was.
pub proof fn lemma_dup_pop(m: ModuleModel, s: StateModel, pc: usize)
    requires
        s.frames.len() > 0,
        s.stack.len() >= 1,
    ensures
        execute_op(m, s, 0x11, pc) matches Ok((_, s2)) && execute_op(m, s2, 0x12, pc) matches Ok(
            (_, s3),
        ) && s3.stack == s.stack,
{
    assert(s.stack.push(s.stack.last()).drop_last() =~= s.stack);
}

/// Steps until the execution finishes, needs the host, or traps; the deadline is
/// taken as `deadline_passed` at every step. Also the state where it stopped: on a
/// trap, the state in which the trapping step began.
pub open spec fn run_spec(m: ModuleModel, s: StateModel, deadline_passed: bool) -> (
    Result<Step, VmTrap>,
    StateModel,
)
    decreases s.budget, s.frames.len(),
{
    match step_spec(m, s, deadline_passed) {
        Ok((Step::Continue, s2)) => {
            proof {
                lemma_budget_per_instruction(m, s, deadline_passed);
            }
            if s2.budget < s.budget || (s2.budget == s.budget && s2.frames.len() < s.frames.len()) {
                run_spec(m, s2, deadline_passed)
            } else {
                (Ok(Step::Continue), s2)
            }
        },
        Ok((st, s2)) => (Ok(st), s2),
        Err(e) => (Err(e), s),
    }
}

/// The statements that the steps of [`run_spec`] report, in order: each step that
/// reports one reports it before it runs, whether or not it then traps.
pub open spec fn run_statements(m: ModuleModel, s: StateModel, deadline_passed: bool) -> Seq<
    StatementReport,
>
    decreases s.budget, s.frames.len(),
{
    let here = match statement_spec(m, s, deadline_passed) {
        Some(rep) => seq![rep],
        None => Seq::empty(),
    };
    match step_spec(m, s, deadline_passed) {
        Ok((Step::Continue, s2)) => {
            proof {
                lemma_budget_per_instruction(m, s, deadline_passed);
            }
            if s2.budget < s.budget || (s2.budget == s.budget && s2.frames.len() < s.frames.len()) {
                here + run_statements(m, s2, deadline_passed)
            } else {
                here
            }
        },
        _ => here,
    }
}

impl VmState {
    /// Steps until the execution finishes, needs the host, or traps, for an execution
    /// without a deadline: see [`run_spec`]. It stops within as many instructions as the
    /// budget allows. The statements that the steps report are appended to `statements`,
    /// in order. A host with a deadline reads its clock before each instruction and
    /// calls [`VmState::step`] itself.
    pub fn run(&mut self, module: &VmModule, statements: &mut Vec<StatementReport>) -> (r: Result<
        Step,
        VmTrap,
    >)
        ensures
            (r, final(self)@) == run_spec(module@, old(self)@, false),
            final(statements)@ == old(statements)@ + run_statements(module@, old(self)@, false),
    {
        let deadline_passed = false;
        loop
            invariant
                !deadline_passed,
                run_spec(module@, old(self)@, deadline_passed) == run_spec(
                    module@,
                    self@,
                    deadline_passed,
                ),
                old(statements)@ + run_statements(module@, old(self)@, deadline_passed)
                    == statements@ + run_statements(module@, self@, deadline_passed),
            decreases self.budget, self.frames.len(),
        {
            proof {
                lemma_budget_per_instruction(module@, self@, deadline_passed);
            }
            let ghost before = self@;
            let ghost listed = statements@;
            let ghost here = match statement_spec(module@, before, deadline_passed) {
                Some(rep) => seq![rep],
                None => Seq::empty(),
            };
            match self.statement_at(module, deadline_passed) {
                Some(rep) => {
                    statements.push(rep);
                },
                None => {},
            }
            assert(statements@ == listed + here);
            let r = self.step(module, deadline_passed);
            match r {
                Ok(Step::Continue) => {
                    assert(listed + (here + run_statements(module@, self@, deadline_passed))
                        =~= statements@ + run_statements(module@, self@, deadline_passed));
                },
                _ => {
                    assert(listed + here =~= statements@ + Seq::<StatementReport>::empty());
                    assert(run_statements(module@, before, deadline_passed) == here);
                    assert(statements@ =~= old(statements)@ + run_statements(
                        module@,
                        old(self)@,
                        deadline_passed,
                    ));
                    return r;
                },
            }
        }
    }
}

} // verus!
