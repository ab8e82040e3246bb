use vstd::prelude::*;
use crate::execution_backend::ExecutionBackend;
use crate::runtime_error::{RuntimeError, RuntimeErrorModel};
use crate::text::{ascii_upper, ascii_upper_eq, chars_of, lemma_char_code_injective, upper_eq_at};
use crate::vm::{VmModule, VmState, call_frame, StateModel};

verus! {

/// The execution path that runs programs and function blocks.
#[derive(Debug, Clone, Copy, PartialEq, Eq, Structural)]
pub enum Backend {
    /// The AST interpreter.
    Interpreter,
    /// The bytecode VM.
    BytecodeVm,
}

/// The execution path of a backend mode.
pub open spec fn backend_for(mode: ExecutionBackend) -> Backend {
    match mode {
        ExecutionBackend::Interpreter => Backend::Interpreter,
        ExecutionBackend::BytecodeVm => Backend::BytecodeVm,
    }
}

/// The execution path that a backend mode selects; the same mode always selects the
/// same path.
pub fn resolve_backend(mode: ExecutionBackend) -> (b: Backend)
    ensures
        b == backend_for(mode),
{
    match mode {
        ExecutionBackend::Interpreter => Backend::Interpreter,
        ExecutionBackend::BytecodeVm => Backend::BytecodeVm,
    }
}

/// The message of a VM selection without a bytecode module.
pub open spec fn missing_module_message() -> Seq<char> {
    "runtime.execution_backend='vm' requires loaded bytecode module"@
}

/// The runtime's backend selection: the selected mode and the loaded bytecode module.
pub struct Runtime {
    execution_backend: ExecutionBackend,
    vm_module: Option<VmModule>,
}

/// A module whose lookup tables are maps: no program name, function block type name
/// or debug map key occurs twice.
pub open spec fn module_well_formed(m: VmModule) -> bool {
    &&& pou_names_unique(m.program_ids@)
    &&& pou_names_unique(m.function_block_ids@)
    &&& m@.debug_keys.no_duplicates()
}

impl Runtime {
    /// A loaded module is well formed.
    #[verifier::type_invariant]
    spec fn loaded_module_well_formed(&self) -> bool {
        self.vm_module matches Some(m) ==> module_well_formed(m)
    }

    /// The selected execution backend.
    pub closed spec fn spec_backend(&self) -> ExecutionBackend {
        self.execution_backend
    }

    /// Whether a bytecode module is loaded.
    pub open spec fn has_vm_module(&self) -> bool {
        self.spec_module() is Some
    }

    /// A runtime with the interpreter selected and no bytecode module.
    pub fn new() -> (r: Self)
        ensures
            r.spec_backend() == ExecutionBackend::Interpreter,
            !r.has_vm_module(),
    {
        Runtime { execution_backend: ExecutionBackend::Interpreter, vm_module: None }
    }

    /// The selected execution backend.
    pub fn execution_backend(&self) -> (b: ExecutionBackend)
        ensures
            b == self.spec_backend(),
    {
        self.execution_backend
    }

    /// Whether a bytecode module is loaded.
    pub fn vm_module_loaded(&self) -> (b: bool)
        ensures
            b == self.has_vm_module(),
    {
        self.vm_module.is_some()
    }

    /// The loaded bytecode module; it is well formed.
    pub fn vm_module(&self) -> (m: Option<&VmModule>)
        ensures
            match m {
                Some(x) => self.spec_module() == Some(*x) && module_well_formed(*x),
                None => self.spec_module() is None,
            },
    {
        proof {
            use_type_invariant(self);
        }
        match &self.vm_module {
            Some(m) => Some(m),
            None => None,
        }
    }

    /// Loads a bytecode module, whose lookup tables are maps; the selected backend stays.
    pub fn load_vm_module(&mut self, module: VmModule)
        requires
            module_well_formed(module),
        ensures
            final(self).spec_module() == Some(module),
            final(self).has_vm_module(),
            final(self).spec_backend() == old(self).spec_backend(),
    {
        self.vm_module = Some(module);
    }

    /// Selects an execution backend; the bytecode VM needs a loaded module. On an error
    /// the selection stays as it was.
    pub fn set_execution_backend(&mut self, mode: ExecutionBackend) -> (r: Result<(), RuntimeError>)
        ensures
            final(self).spec_module() == old(self).spec_module(),
            match r {
                Ok(()) => (mode == ExecutionBackend::Interpreter || old(self).has_vm_module())
                    && final(self).spec_backend() == mode,
                Err(e) => mode == ExecutionBackend::BytecodeVm && !old(self).has_vm_module()
                    && final(self).spec_backend() == old(self).spec_backend() && e@
                    == RuntimeErrorModel::InvalidConfig(missing_module_message()),
            },
    {
        proof {
            use_type_invariant(&*self);
        }
        match validate_backend_selection(self, mode) {
            Ok(()) => {
                self.execution_backend = mode;
                Ok(())
            },
            Err(e) => Err(e),
        }
    }
}

/// Checks that the runtime can run with a backend mode: the bytecode VM needs a
/// loaded module.
pub fn validate_backend_selection(runtime: &Runtime, mode: ExecutionBackend) -> (r: Result<(), RuntimeError>)
    ensures
        match r {
            Ok(()) => mode == ExecutionBackend::Interpreter || runtime.has_vm_module(),
            Err(e) => mode == ExecutionBackend::BytecodeVm && !runtime.has_vm_module() && e@
                == RuntimeErrorModel::InvalidConfig(missing_module_message()),
        },
{
    if mode == ExecutionBackend::BytecodeVm && !runtime.vm_module_loaded() {
        return Err(
            RuntimeError::InvalidConfig(
                String::from_str("runtime.execution_backend='vm' requires loaded bytecode module"),
            ),
        );
    }
    Ok(())
}

/// The POU id of the first entry whose name is `name` in ASCII upper case, from
/// position `i` on.
pub open spec fn find_upper_from(entries: Seq<(String, u32)>, name: Seq<char>, i: nat) -> Option<u32>
    decreases entries.len() - i,
{
    if i >= entries.len() {
        None
    } else if ascii_upper_eq(name, entries[i as int].0@) {
        Some(entries[i as int].1)
    } else {
        find_upper_from(entries, name, i + 1)
    }
}

/// Whether no name occurs twice among the entries: as in a map from names to POU ids.
pub open spec fn pou_names_unique(entries: Seq<(String, u32)>) -> bool {
    forall|a: int, b: int|
        0 <= a < b < entries.len() ==> #[trigger] entries[a].0@ != #[trigger] entries[b].0@
}

/// Where names occur once, a name finds the only entry whose name it matches in ASCII
/// upper case: the lookup gives what a map from names would.
pub proof fn lemma_unique_pou_lookup(entries: Seq<(String, u32)>, name: Seq<char>, i: int)
    requires
        pou_names_unique(entries),
        0 <= i < entries.len(),
        ascii_upper_eq(name, entries[i].0@),
    ensures
        find_upper_from(entries, name, 0) == Some(entries[i].1),
{
    lemma_unique_pou_lookup_from(entries, name, i, 0);
}

proof fn lemma_unique_pou_lookup_from(entries: Seq<(String, u32)>, name: Seq<char>, i: int, j: nat)
    requires
        pou_names_unique(entries),
        j <= i < entries.len(),
        ascii_upper_eq(name, entries[i].0@),
    ensures
        find_upper_from(entries, name, j) == Some(entries[i].1),
    decreases i - j,
{
    if j < i {
        if ascii_upper_eq(name, entries[j as int].0@) {
            let x = entries[j as int].0@;
            let y = entries[i].0@;
            assert forall|k: int| 0 <= k < x.len() implies x[k] == y[k] by {
                assert(ascii_upper(name[k]) == x[k] as u32);
                assert(ascii_upper(name[k]) == y[k] as u32);
                lemma_char_code_injective(x[k], y[k]);
            }
            assert(x =~= y);
            assert(false);
        }
        lemma_unique_pou_lookup_from(entries, name, i, j + 1);
    }
}

/// Finds the POU id that `name`, taken in ASCII upper case, names.
fn find_pou(entries: &Vec<(String, u32)>, name: &str) -> (r: Option<u32>)
    ensures
        r == find_upper_from(entries@, name@, 0),
{
    let chars = chars_of(name);
    let mut i: usize = 0;
    while i < entries.len()
        invariant
            chars@ == name@,
            i <= entries@.len(),
            find_upper_from(entries@, name@, 0) == find_upper_from(entries@, name@, i as nat),
        decreases entries.len() - i,
    {
        let key = chars_of(entries[i].0.as_str());
        if upper_eq_at(&chars, 0, chars.len(), &key) {
            assert(chars@.subrange(0, chars@.len() as int) =~= chars@);
            return Some(entries[i].1);
        }
        assert(chars@.subrange(0, chars@.len() as int) =~= chars@);
        i = i + 1;
    }
    None
}

/// The state in which the POU found by `found` starts, or the error.
pub open spec fn start_spec(
    r: Result<VmState, RuntimeError>,
    module: VmModule,
    found: Option<u32>,
    missing: RuntimeErrorModel,
    instance: Option<u64>,
) -> bool {
    match found {
        None => r matches Err(e) && e@ == missing,
        Some(pou) => match call_frame(module@, pou, usize::MAX, instance) {
            Ok(f) => r matches Ok(st) && st@ == (StateModel {
                pc: f.code_start,
                budget: module.instruction_budget,
                frames: seq![f],
                stack: Seq::empty(),
            }),
            Err(t) => r matches Err(e) && e@ == RuntimeErrorModel::Vm(t),
        },
    }
}

/// How starting the program `name` on the bytecode VM ends with `r`: without a module
/// it is a configuration error; a name that no program has (in ASCII upper case) is a
/// `MissingProgram` error; otherwise the program's POU starts as [`start_spec`] says.
pub open spec fn program_started(
    rt: Runtime,
    name: Seq<char>,
    instance: Option<u64>,
    r: Result<VmState, RuntimeError>,
) -> bool {
    match rt.spec_module() {
        None => r matches Err(e) && e@ == RuntimeErrorModel::InvalidConfig(missing_module_message()),
        Some(m) => start_spec(
            r,
            m,
            find_upper_from(m.program_ids@, name, 0),
            RuntimeErrorModel::MissingProgram(name),
            instance,
        ),
    }
}

/// How starting a function block of type `block_type` for instance `instance_id` on
/// the bytecode VM ends with `r`, as [`program_started`] says of programs.
pub open spec fn function_block_started(
    rt: Runtime,
    block_type: Seq<char>,
    instance_id: u64,
    r: Result<VmState, RuntimeError>,
) -> bool {
    match rt.spec_module() {
        None => r matches Err(e) && e@ == RuntimeErrorModel::InvalidConfig(missing_module_message()),
        Some(m) => start_spec(
            r,
            m,
            find_upper_from(m.function_block_ids@, block_type, 0),
            RuntimeErrorModel::MissingFunctionBlock(block_type),
            Some(instance_id),
        ),
    }
}

impl Runtime {
    /// The loaded module, if any.
    pub closed spec fn spec_module(&self) -> Option<VmModule> {
        self.vm_module
    }

    /// Starts the program `name` on the bytecode VM, for the program's instance if it
    /// has one. Names match in ASCII upper case.
    pub fn start_program(&self, name: &str, instance: Option<u64>) -> (r: Result<VmState, RuntimeError>)
        ensures
            program_started(*self, name@, instance, r),
    {
        match &self.vm_module {
            None => Err(
                RuntimeError::InvalidConfig(
                    String::from_str("runtime.execution_backend='vm' requires loaded bytecode module"),
                ),
            ),
            Some(m) => match find_pou(&m.program_ids, name) {
                None => Err(RuntimeError::MissingProgram(String::from_str(name))),
                Some(pou) => match VmState::start(m, pou, instance) {
                    Ok(st) => Ok(st),
                    Err(t) => Err(RuntimeError::Vm(t)),
                },
            },
        }
    }

    /// Starts a function block of type `block_type` on the bytecode VM, for its instance
    /// `instance_id`. Names match in ASCII upper case.
    pub fn start_function_block(&self, block_type: &str, instance_id: u64) -> (r: Result<
        VmState,
        RuntimeError,
    >)
        ensures
            function_block_started(*self, block_type@, instance_id, r),
    {
        match &self.vm_module {
            None => Err(
                RuntimeError::InvalidConfig(
                    String::from_str("runtime.execution_backend='vm' requires loaded bytecode module"),
                ),
            ),
            Some(m) => match find_pou(&m.function_block_ids, block_type) {
                None => Err(RuntimeError::MissingFunctionBlock(String::from_str(block_type))),
                Some(pou) => match VmState::start(m, pou, Some(instance_id)) {
                    Ok(st) => Ok(st),
                    Err(t) => Err(RuntimeError::Vm(t)),
                },
            },
        }
    }
}

/// What the runtime's storage holds where a function block reference points.
pub enum RefTarget {
    /// The reference leads to no value.
    Null,
    /// The reference leads to a value that is not a function block instance.
    NotInstance,
    /// The reference leads to instance `id`, whose function block type is `block_type`; `None`
    /// where the storage has no instance of that id.
    Instance { id: u64, block_type: Option<String> },
}

/// How starting the function block that a reference leads to ends with `r`: without a
/// module it is a configuration error; then a reference to nothing, or to an id that
/// no instance has, is a `NullReference`; one to a value that is not an instance is a
/// `TypeMismatch`; otherwise the instance's type starts as
/// [`function_block_started`] says.
pub open spec fn function_block_ref_started(
    rt: Runtime,
    target: RefTarget,
    r: Result<VmState, RuntimeError>,
) -> bool {
    if rt.spec_module() is None {
        r matches Err(e) && e@ == RuntimeErrorModel::InvalidConfig(missing_module_message())
    } else {
        match target {
            RefTarget::Null => r matches Err(e) && e@ == RuntimeErrorModel::NullReference,
            RefTarget::NotInstance => r matches Err(e) && e@ == RuntimeErrorModel::TypeMismatch,
            RefTarget::Instance { id, block_type } => match block_type {
                None => r matches Err(e) && e@ == RuntimeErrorModel::NullReference,
                Some(t) => function_block_started(rt, t@, id, r),
            },
        }
    }
}

impl Runtime {
    /// Starts on the bytecode VM the function block that a reference leads to, given
    /// what the storage holds there: see [`function_block_ref_started`].
    pub fn start_function_block_ref(&self, target: &RefTarget) -> (r: Result<VmState, RuntimeError>)
        ensures
            function_block_ref_started(*self, *target, r),
    {
        if !self.vm_module_loaded() {
            return Err(
                RuntimeError::InvalidConfig(
                    String::from_str("runtime.execution_backend='vm' requires loaded bytecode module"),
                ),
            );
        }
        match target {
            RefTarget::Null => Err(RuntimeError::NullReference),
            RefTarget::NotInstance => Err(RuntimeError::TypeMismatch),
            RefTarget::Instance { id, block_type } => match block_type {
                None => Err(RuntimeError::NullReference),
                Some(t) => self.start_function_block(t.as_str(), *id),
            },
        }
    }
}

/// How a backend goes on with a program or a function block: the interpreter runs it
/// on the host; the bytecode VM runs it from the state it started in.
pub enum Dispatch {
    Interpreter,
    Vm(VmState),
}

/// Backend `b` dispatches with `r` where starting on the VM would end with `started`:
/// the interpreter always takes the work; the VM passes on the start's state or error.
pub open spec fn dispatched(
    b: Backend,
    r: Result<Dispatch, RuntimeError>,
    started: spec_fn(Result<VmState, RuntimeError>) -> bool,
) -> bool {
    match b {
        Backend::Interpreter => r matches Ok(Dispatch::Interpreter),
        Backend::BytecodeVm => match r {
            Ok(Dispatch::Vm(st)) => started(Ok(st)),
            Ok(Dispatch::Interpreter) => false,
            Err(e) => started(Err(e)),
        },
    }
}

impl Backend {
    /// Runs the program `name` on this backend: the interpreter takes it; the bytecode
    /// VM starts it as [`Runtime::start_program`] does.
    pub fn execute_program(&self, runtime: &Runtime, name: &str, instance: Option<u64>) -> (r: Result<
        Dispatch,
        RuntimeError,
    >)
        ensures
            dispatched(*self, r, |x: Result<VmState, RuntimeError>| program_started(*runtime, name@, instance, x)),
    {
        match self {
            Backend::Interpreter => Ok(Dispatch::Interpreter),
            Backend::BytecodeVm => match runtime.start_program(name, instance) {
                Ok(st) => Ok(Dispatch::Vm(st)),
                Err(e) => Err(e),
            },
        }
    }

    /// Runs the function block that a reference leads to on this backend, given what
    /// the storage holds there: the interpreter takes it; the bytecode VM starts it as
    /// [`Runtime::start_function_block_ref`] does.
    pub fn execute_function_block_ref(&self, runtime: &Runtime, target: &RefTarget) -> (r: Result<
        Dispatch,
        RuntimeError,
    >)
        ensures
            dispatched(
                *self,
                r,
                |x: Result<VmState, RuntimeError>| function_block_ref_started(*runtime, *target, x),
            ),
    {
        match self {
            Backend::Interpreter => Ok(Dispatch::Interpreter),
            Backend::BytecodeVm => match runtime.start_function_block_ref(target) {
                Ok(st) => Ok(Dispatch::Vm(st)),
                Err(e) => Err(e),
            },
        }
    }
}

} // verus!
