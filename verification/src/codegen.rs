//! The lowering half of the pipeline: run folding (`preopt`), control-flow
//! building (`ir_gen`), and the per-routine packaging of the result into a
//! module that also declares the four host runtime functions the generated
//! code may call (`calloc`, `free`, `putchar`, `getchar`).  Those four are
//! resolved at link time by the external backend; this crate only states
//! their signatures.

pub mod ir_gen;
pub mod preopt;

use vstd::prelude::*;

use crate::codegen::ir_gen::{BasicBlock, BlockView, StructuralError, blocks_view, build_outcome};
use crate::codegen::preopt::{PreOptResult, PreOptRoutine, PreOptToken, PreOptTokenView, preopt_view};

verus! {

/// The number of one-byte cells each routine's tape holds.
pub const TAPE_CELLS: u32 = 30000;

/// The primitive types that appear in the host runtime signatures.
#[derive(Clone, Copy, Debug, PartialEq, Eq, Structural)]
pub enum LlType {
    I8,
    I32,
    Ptr,
    Void,
}

/// The declaration of one externally-linked function: a name and a
/// signature, no body.
pub struct RuntimeFn {
    pub name: String,
    pub params: Vec<LlType>,
    pub ret: LlType,
}

/// The mathematical image of a runtime declaration.
#[verifier::ext_equal]
pub ghost struct RuntimeFnView {
    pub name: Seq<char>,
    pub params: Seq<LlType>,
    pub ret: LlType,
}

impl View for RuntimeFn {
    type V = RuntimeFnView;

    open spec fn view(&self) -> RuntimeFnView {
        RuntimeFnView { name: self.name@, params: self.params@, ret: self.ret }
    }
}

/// One generated function: its name and its basic-block graph.  Block 0 is
/// the entry block.
pub struct Function {
    pub name: String,
    pub blocks: Vec<BasicBlock>,
}

/// The mathematical image of a generated function.
#[verifier::ext_equal]
pub ghost struct FunctionView {
    pub name: Seq<char>,
    pub blocks: Seq<BlockView>,
}

impl View for Function {
    type V = FunctionView;

    open spec fn view(&self) -> FunctionView {
        FunctionView { name: self.name@, blocks: blocks_view(self.blocks@) }
    }
}

/// One routine's compiled module: the runtime declarations plus the
/// routine's generated function.
pub struct Module {
    pub name: String,
    pub externals: Vec<RuntimeFn>,
    pub functions: Vec<Function>,
}

/// The mathematical image of a module.
#[verifier::ext_equal]
pub ghost struct ModuleView {
    pub name: Seq<char>,
    pub externals: Seq<RuntimeFnView>,
    pub functions: Seq<FunctionView>,
}

impl View for Module {
    type V = ModuleView;

    open spec fn view(&self) -> ModuleView {
        ModuleView {
            name: self.name@,
            externals: self.externals@.map_values(|f: RuntimeFn| f@),
            functions: self.functions@.map_values(|f: Function| f@),
        }
    }
}

/// `calloc(count: i32, size: i32) -> byte*`.
pub open spec fn calloc_decl() -> RuntimeFnView {
    RuntimeFnView { name: "calloc"@, params: seq![LlType::I32, LlType::I32], ret: LlType::Ptr }
}

/// `free(byte*) -> void`.
pub open spec fn free_decl() -> RuntimeFnView {
    RuntimeFnView { name: "free"@, params: seq![LlType::Ptr], ret: LlType::Void }
}

/// `putchar(byte) -> void`.
pub open spec fn putchar_decl() -> RuntimeFnView {
    RuntimeFnView { name: "putchar"@, params: seq![LlType::I8], ret: LlType::Void }
}

/// `getchar() -> byte`.
pub open spec fn getchar_decl() -> RuntimeFnView {
    RuntimeFnView { name: "getchar"@, params: seq![], ret: LlType::I8 }
}

/// The four host declarations, in the order they are linked.
pub open spec fn libc_decls() -> Seq<RuntimeFnView> {
    seq![calloc_decl(), free_decl(), putchar_decl(), getchar_decl()]
}

fn make_calloc() -> (r: RuntimeFn)
    ensures
        r@ =~= calloc_decl(),
{
    let mut params: Vec<LlType> = Vec::new();
    params.push(LlType::I32);
    params.push(LlType::I32);
    RuntimeFn { name: "calloc".to_owned(), params, ret: LlType::Ptr }
}

fn make_free() -> (r: RuntimeFn)
    ensures
        r@ =~= free_decl(),
{
    let mut params: Vec<LlType> = Vec::new();
    params.push(LlType::Ptr);
    RuntimeFn { name: "free".to_owned(), params, ret: LlType::Void }
}

fn make_putchar() -> (r: RuntimeFn)
    ensures
        r@ =~= putchar_decl(),
{
    let mut params: Vec<LlType> = Vec::new();
    params.push(LlType::I8);
    RuntimeFn { name: "putchar".to_owned(), params, ret: LlType::Void }
}

fn make_getchar() -> (r: RuntimeFn)
    ensures
        r@ =~= getchar_decl(),
{
    let params: Vec<LlType> = Vec::new();
    RuntimeFn { name: "getchar".to_owned(), params, ret: LlType::I8 }
}

/// The runtime-binding layer: handles to the four host functions a
/// generated routine may call.
pub struct LibC {
    pub calloc: RuntimeFn,
    pub free: RuntimeFn,
    pub putchar: RuntimeFn,
    pub getchar: RuntimeFn,
}

impl LibC {
    /// Declares the four host functions in the module, in linking order,
    /// and hands back the declarations for the builder to call by
    /// reference.  Nothing else about the module changes.
    pub fn link_to_module(module: &mut Module) -> (r: LibC)
        ensures
            final(module).name@ == old(module).name@,
            final(module).functions@ == old(module).functions@,
            final(module)@.externals =~= old(module)@.externals + libc_decls(),
            r.calloc@ =~= calloc_decl(),
            r.free@ =~= free_decl(),
            r.putchar@ =~= putchar_decl(),
            r.getchar@ =~= getchar_decl(),
    {
        module.externals.push(make_calloc());
        module.externals.push(make_free());
        module.externals.push(make_putchar());
        module.externals.push(make_getchar());
        LibC {
            calloc: make_calloc(),
            free: make_free(),
            putchar: make_putchar(),
            getchar: make_getchar(),
        }
    }
}

/// What a correctly assembled module for one routine looks like: the four
/// runtime declarations and exactly one function, holding the graph the
/// build specification prescribes.
pub open spec fn module_matches(m: ModuleView, name: Seq<char>, bs: Seq<BlockView>) -> bool {
    &&& m.name == name
    &&& m.externals == libc_decls()
    &&& m.functions == seq![FunctionView { name: name, blocks: bs }]
}

/// A module is the correct compilation of the named routine's stream.
pub open spec fn routine_module_ok(m: ModuleView, name: Seq<char>, toks: Seq<PreOptTokenView>) -> bool {
    build_outcome(toks) matches Result::Ok(bs) && module_matches(m, name, bs)
}

/// An error correctly reports the named routine's structural fault.
pub open spec fn routine_error_ok(e: StructuralError, name: Seq<char>, toks: Seq<PreOptTokenView>) -> bool {
    build_outcome(toks) matches Result::Err(k) && e.kind == k && e.routine@ == name
}

/// Law: compilation is deterministic.  Two modules compiled from the same
/// routine stream are equal — same runtime declarations, same function,
/// same block graph, and in particular identical generated instruction
/// counts.
pub proof fn lemma_compile_deterministic(
    m1: ModuleView,
    m2: ModuleView,
    name: Seq<char>,
    toks: Seq<PreOptTokenView>,
)
    requires
        routine_module_ok(m1, name, toks),
        routine_module_ok(m2, name, toks),
    ensures
        m1 == m2,
{
    assert(m1 =~~= m2);
}

/// Compiles one routine into a module, or rejects it with a structural
/// error naming the routine.
fn assemble_module(name: &String, data: &Vec<PreOptToken>) -> (r: Result<Module, StructuralError>)
    requires
        1 + 3 * data@.len() <= usize::MAX,
    ensures
        r matches Result::Ok(m) ==> routine_module_ok(m@, name@, preopt_view(data@)),
        r matches Result::Err(e) ==> routine_error_ok(e, name@, preopt_view(data@)),
        (r matches Result::Ok(_)) == (build_outcome(preopt_view(data@)) matches Result::Ok(_)),
{
    match crate::codegen::ir_gen::build_blocks(data) {
        Result::Ok(blocks) => {
            let mut module = Module {
                name: name.clone(),
                externals: Vec::new(),
                functions: Vec::new(),
            };
            let _libc = LibC::link_to_module(&mut module);
            module.functions.push(Function { name: name.clone(), blocks });
            proof {
                assert(module@.externals =~= libc_decls());
                assert(module@.functions =~= seq![
                    FunctionView {
                        name: name@,
                        blocks: build_outcome(preopt_view(data@))->Ok_0,
                    },
                ]);
            }
            Result::Ok(module)
        },
        Result::Err(kind) => Result::Err(StructuralError { routine: name.clone(), kind }),
    }
}

/// The per-routine compilation context.  It owns the routine's folded
/// token stream; the block graph, insertion cursor and loop-frame stack
/// live only inside `compile_to_module` and are discarded when the
/// routine's function is finished.
pub struct CodegenCtx {
    pub source: PreOptRoutine,
}

impl CodegenCtx {
    /// Wraps one routine's folded token stream for compilation.
    pub fn new(source: PreOptRoutine) -> (r: Self)
        ensures
            r.source == source,
    {
        CodegenCtx { source }
    }

    /// Compiles the routine into a module: the four runtime declarations
    /// plus one function whose block graph is exactly what the build
    /// specification prescribes.  Succeeds if and only if the routine's
    /// loops are balanced; otherwise reports the structural error,
    /// naming the routine, and emits no function.
    pub fn compile_to_module(&self) -> (r: Result<Module, StructuralError>)
        requires
            1 + 3 * self.source.data@.len() <= usize::MAX,
        ensures
            r matches Result::Ok(m) ==> routine_module_ok(
                m@,
                self.source.name@,
                preopt_view(self.source.data@),
            ),
            r matches Result::Err(e) ==> routine_error_ok(
                e,
                self.source.name@,
                preopt_view(self.source.data@),
            ),
            (r matches Result::Ok(_)) == (build_outcome(preopt_view(self.source.data@))
                matches Result::Ok(_)),
    {
        assemble_module(&self.source.name, &self.source.data)
    }
}

/// One compiled program: one module per routine, in input order.
pub struct IRProgram {
    pub modules: Vec<Module>,
}

/// The top-level compilation context.  It outlives every routine's
/// generated function; routine-level state never crosses routines.
pub struct IRContext {}

impl IRContext {
    /// Creates the compilation context for one whole run.
    pub fn new() -> (r: IRContext) {
        IRContext {  }
    }

    /// Compiles every routine, in input order.  Succeeds if and only if
    /// every routine is balanced; otherwise reports the structural error
    /// of the first offending routine and emits nothing.
    pub fn compile(&self, pre: &PreOptResult) -> (r: Result<IRProgram, StructuralError>)
        requires
            forall|i: int|
                0 <= i < pre.preopt_routines@.len() ==> 1 + 3 * (#[trigger] pre.preopt_routines@[i]).data@.len()
                    <= usize::MAX,
        ensures
            r matches Result::Ok(p) ==> {
                &&& p.modules@.len() == pre.preopt_routines@.len()
                &&& forall|i: int|
                    0 <= i < pre.preopt_routines@.len() ==> routine_module_ok(
                        (#[trigger] p.modules@[i])@,
                        pre.preopt_routines@[i].name@,
                        preopt_view(pre.preopt_routines@[i].data@),
                    )
            },
            r matches Result::Err(e) ==> exists|i: int|
                0 <= i < pre.preopt_routines@.len() && routine_error_ok(
                    e,
                    (#[trigger] pre.preopt_routines@[i]).name@,
                    preopt_view(pre.preopt_routines@[i].data@),
                ) && (forall|j: int|
                    0 <= j < i ==> build_outcome(
                        preopt_view((#[trigger] pre.preopt_routines@[j]).data@),
                    ) matches Result::Ok(_)),
    {
        let mut modules: Vec<Module> = Vec::new();
        let mut i: usize = 0;
        while i < pre.preopt_routines.len()
            invariant
                forall|k: int|
                    0 <= k < pre.preopt_routines@.len() ==> 1 + 3 * (
                    #[trigger] pre.preopt_routines@[k]).data@.len() <= usize::MAX,
                i <= pre.preopt_routines@.len(),
                modules@.len() == i,
                forall|k: int|
                    0 <= k < i ==> routine_module_ok(
                        (#[trigger] modules@[k])@,
                        pre.preopt_routines@[k].name@,
                        preopt_view(pre.preopt_routines@[k].data@),
                    ),
            decreases pre.preopt_routines@.len() - i,
        {
            let routine = &pre.preopt_routines[i];
            match assemble_module(&routine.name, &routine.data) {
                Result::Ok(m) => {
                    modules.push(m);
                    proof {
                        assert(routine_module_ok(
                            modules@[i as int]@,
                            pre.preopt_routines@[i as int].name@,
                            preopt_view(pre.preopt_routines@[i as int].data@),
                        ));
                    }
                },
                Result::Err(e) => {
                    proof {
                        assert(routine_error_ok(
                            e,
                            pre.preopt_routines@[i as int].name@,
                            preopt_view(pre.preopt_routines@[i as int].data@),
                        ));
                        assert forall|j: int| 0 <= j < i as int implies (build_outcome(
                            preopt_view((#[trigger] pre.preopt_routines@[j]).data@),
                        ) matches Result::Ok(_)) by {
                            assert(routine_module_ok(
                                modules@[j]@,
                                pre.preopt_routines@[j].name@,
                                preopt_view(pre.preopt_routines@[j].data@),
                            ));
                        }
                        assert(exists|j: int|
                            0 <= j < pre.preopt_routines@.len() && routine_error_ok(
                                e,
                                (#[trigger] pre.preopt_routines@[j]).name@,
                                preopt_view(pre.preopt_routines@[j].data@),
                            ) && (forall|jj: int|
                                0 <= jj < j ==> build_outcome(
                                    preopt_view((#[trigger] pre.preopt_routines@[jj]).data@),
                                ) matches Result::Ok(_))) by {
                            assert(0 <= (i as int) && (i as int) < pre.preopt_routines@.len()
                                && routine_error_ok(
                                e,
                                pre.preopt_routines@[i as int].name@,
                                preopt_view(pre.preopt_routines@[i as int].data@),
                            ));
                        }
                    }
                    return Result::Err(e);
                },
            }
            i = i + 1;
        }
        Result::Ok(IRProgram { modules })
    }
}

} // verus!
