use vstd::prelude::*;

use crate::ast::{Block, Builtin, Expr, FuncDef, Param, Program, Stmt, TopDecl};
use crate::ir::{Func, Instr, ProgramIR};

verus! {

/// Why a parsed program has no IR.
#[derive(Debug, Clone)]
pub enum CodegenError {
    /// An assignment to a name that was never declared.
    UndeclaredAssign(String),
    /// A use of a name that is neither a local nor a global constant.
    UndeclaredVariable(String),
    /// `if` or `while`, which have no lowering.
    ControlFlow,
    /// `perform`, which has no lowering.
    Perform,
    /// A unary or binary operation or a call, which have no lowering.
    ComplexExpr,
}

/// `CodegenError` with its names as character sequences.
pub enum CodegenFailure {
    UndeclaredAssign(Seq<char>),
    UndeclaredVariable(Seq<char>),
    ControlFlow,
    Perform,
    ComplexExpr,
}

impl View for CodegenError {
    type V = CodegenFailure;

    open spec fn view(&self) -> CodegenFailure {
        match self {
            CodegenError::UndeclaredAssign(n) => CodegenFailure::UndeclaredAssign(n@),
            CodegenError::UndeclaredVariable(n) => CodegenFailure::UndeclaredVariable(n@),
            CodegenError::ControlFlow => CodegenFailure::ControlFlow,
            CodegenError::Perform => CodegenFailure::Perform,
            CodegenError::ComplexExpr => CodegenFailure::ComplexExpr,
        }
    }
}

/// The variable names of a frame, by slot index.
pub type Env = Seq<Seq<char>>;

/// Global constants, in declaration order.
pub type Globals = Seq<(Seq<char>, i32)>;

/// What lowering yields: instructions and the frame after them, or a failure.
pub type Lowered = Result<(Seq<Instr>, Env), CodegenFailure>;

/// The first slot among the first `k` whose name is `name`.
pub open spec fn slot_upto(env: Env, name: Seq<char>, k: nat) -> Option<nat>
    decreases k,
{
    if k == 0 || k > env.len() {
        None
    } else {
        match slot_upto(env, name, (k - 1) as nat) {
            Some(i) => Some(i),
            None => if env[k - 1] == name {
                Some((k - 1) as nat)
            } else {
                None
            },
        }
    }
}

/// The slot of `name`, if it has one.
pub open spec fn slot_named(env: Env, name: Seq<char>) -> Option<nat> {
    slot_upto(env, name, env.len())
}

/// The slot of `name`, given it a new one at the end if it has none yet.
pub open spec fn alloc_slot(env: Env, name: Seq<char>) -> (nat, Env) {
    match slot_named(env, name) {
        Some(i) => (i, env),
        None => (env.len(), env.push(name)),
    }
}

/// The value of the last of the first `k` constants named `name`.
pub open spec fn global_upto(g: Globals, name: Seq<char>, k: nat) -> Option<i32>
    decreases k,
{
    if k == 0 || k > g.len() {
        None
    } else if g[k - 1].0 == name {
        Some(g[k - 1].1)
    } else {
        global_upto(g, name, (k - 1) as nat)
    }
}

/// The value of the global constant `name`; a later declaration hides an earlier one.
pub open spec fn global_named(g: Globals, name: Seq<char>) -> Option<i32> {
    global_upto(g, name, g.len())
}

/// The global constants among the first `k` declarations: those whose value is a literal.
pub open spec fn globals_upto(decls: Seq<TopDecl>, k: nat) -> Globals
    decreases k,
{
    if k == 0 || k > decls.len() {
        Seq::empty()
    } else {
        let before = globals_upto(decls, (k - 1) as nat);
        match decls[k - 1] {
            TopDecl::Const(c) => match c.value {
                Expr::Number(n) => before.push((c.name@, n as i32)),
                _ => before,
            },
            _ => before,
        }
    }
}

/// The IR of an expression: code that leaves its value on the operand stack (`print`
/// leaves nothing).
pub open spec fn expr_code(e: Expr, env: Env, g: Globals) -> Result<Seq<Instr>, CodegenFailure>
    decreases e,
{
    match e {
        Expr::Number(n) => Ok(seq![Instr::PushI32(n as i32)]),
        Expr::Ident(name) => match slot_named(env, name@) {
            Some(i) => Ok(seq![Instr::Load(i as usize)]),
            None => match global_named(g, name@) {
                Some(v) => Ok(seq![Instr::PushI32(v)]),
                None => Err(CodegenFailure::UndeclaredVariable(name@)),
            },
        },
        Expr::Builtin(Builtin::Print(arg)) => match expr_code(*arg, env, g) {
            Ok(c) => Ok(c.push(Instr::Print)),
            Err(f) => Err(f),
        },
        Expr::Builtin(Builtin::Input) => Ok(seq![Instr::PushI32(0)]),
        Expr::Builtin(Builtin::Perform(_, _)) => Err(CodegenFailure::Perform),
        _ => Err(CodegenFailure::ComplexExpr),
    }
}

/// `e`'s code followed by `last`, in frame `env`.
pub open spec fn then_instr(e: Expr, env: Env, g: Globals, last: Instr) -> Lowered {
    match expr_code(e, env, g) {
        Ok(c) => Ok((c.push(last), env)),
        Err(f) => Err(f),
    }
}

/// The IR of a statement, and the frame after it.
pub open spec fn stmt_code(s: Stmt, env: Env, g: Globals) -> Lowered {
    match s {
        Stmt::VarDecl(v) => {
            let (idx, env2) = alloc_slot(env, v.name@);
            match v.value {
                Some(e) => then_instr(e, env2, g, Instr::Store(idx as usize)),
                None => Ok((seq![Instr::PushI32(0), Instr::Store(idx as usize)], env2)),
            }
        },
        Stmt::ConstDecl(c) => {
            let (idx, env2) = alloc_slot(env, c.name@);
            then_instr(c.value, env2, g, Instr::Store(idx as usize))
        },
        Stmt::Assign(a) => match slot_named(env, a.name@) {
            Some(idx) => then_instr(a.value, env, g, Instr::Store(idx as usize)),
            None => Err(CodegenFailure::UndeclaredAssign(a.name@)),
        },
        Stmt::Expr(e) => then_instr(e, env, g, Instr::Pop),
        Stmt::Return(opt) => match opt {
            Some(e) => then_instr(e, env, g, Instr::Ret),
            None => Ok((seq![Instr::Ret], env)),
        },
        Stmt::If(_) | Stmt::While(_) => Err(CodegenFailure::ControlFlow),
    }
}

/// The IR of the first `k` statements, starting from frame `env`.
pub open spec fn block_upto(stmts: Seq<Stmt>, env: Env, g: Globals, k: nat) -> Lowered
    decreases k,
{
    if k == 0 || k > stmts.len() {
        Ok((Seq::empty(), env))
    } else {
        match block_upto(stmts, env, g, (k - 1) as nat) {
            Ok((c, env1)) => match stmt_code(stmts[k - 1], env1, g) {
                Ok((c2, env2)) => Ok((c + c2, env2)),
                Err(f) => Err(f),
            },
            Err(f) => Err(f),
        }
    }
}

/// The frame after the first `k` parameters, allocated left to right.
pub open spec fn params_env(params: Seq<Param>, k: nat) -> Env
    decreases k,
{
    if k == 0 || k > params.len() {
        Seq::empty()
    } else {
        alloc_slot(params_env(params, (k - 1) as nat), params[k - 1].name@).1
    }
}

/// The IR of a function, ending in a `Ret`, and its frame.
pub open spec fn func_code(f: FuncDef, g: Globals) -> Lowered {
    let stmts = f.body.stmts@;
    match block_upto(stmts, params_env(f.params@, f.params@.len()), g, stmts.len()) {
        Ok((c, env)) => Ok((c.push(Instr::Ret), env)),
        Err(e) => Err(e),
    }
}

/// `ir` is the lowering of `f`: same name, that code, and one slot per frame name.
pub open spec fn lowers_to(ir: Func, f: FuncDef, g: Globals) -> bool {
    match func_code(f, g) {
        Ok((c, env)) => {
            &&& ir.name@ == f.name@
            &&& ir.code@ == c
            &&& ir.n_locals == env.len()
            &&& names_view(ir.locals_dbg@) == env
        },
        Err(_) => false,
    }
}

/// The functions among the first `k` declarations.
pub open spec fn funcs_upto(decls: Seq<TopDecl>, k: nat) -> Seq<FuncDef>
    decreases k,
{
    if k == 0 || k > decls.len() {
        Seq::empty()
    } else {
        let before = funcs_upto(decls, (k - 1) as nat);
        match decls[k - 1] {
            TopDecl::Func(f) => before.push(f),
            _ => before,
        }
    }
}

/// The first failure in lowering the first `k` functions.
pub open spec fn first_failure(fs: Seq<FuncDef>, g: Globals, k: nat) -> Option<CodegenFailure>
    decreases k,
{
    if k == 0 || k > fs.len() {
        None
    } else {
        match first_failure(fs, g, (k - 1) as nat) {
            Some(f) => Some(f),
            None => match func_code(fs[k - 1], g) {
                Ok(_) => None,
                Err(f) => Some(f),
            },
        }
    }
}

pub open spec fn names_view(names: Seq<String>) -> Env {
    Seq::new(names.len(), |i: int| names[i]@)
}

pub open spec fn globals_view(g: Seq<(String, i32)>) -> Globals {
    Seq::new(g.len(), |i: int| (g[i].0@, g[i].1))
}

/// Once a failure is found among the first `k` functions, it stays the first one.
pub proof fn lemma_first_failure_sticks(fs: Seq<FuncDef>, g: Globals, k: nat, m: nat)
    requires
        k <= m <= fs.len(),
        first_failure(fs, g, k) is Some,
    ensures
        first_failure(fs, g, m) == first_failure(fs, g, k),
    decreases m - k,
{
    if k < m {
        lemma_first_failure_sticks(fs, g, k, (m - 1) as nat);
    }
}

/// Once a slot is found among the first `k`, it stays the first one.
pub proof fn lemma_slot_sticks(env: Env, name: Seq<char>, k: nat, m: nat)
    requires
        k <= m <= env.len(),
        slot_upto(env, name, k) is Some,
    ensures
        slot_upto(env, name, m) == slot_upto(env, name, k),
    decreases m - k,
{
    if k < m {
        lemma_slot_sticks(env, name, k, (m - 1) as nat);
    }
}

/// Slots of a frame, each name at one index.
struct LocalEnv {
    names: Vec<String>,
}

impl LocalEnv {
    spec fn view(&self) -> Env {
        names_view(self.names@)
    }

    fn allocate(&mut self, name: &String) -> (r: usize)
        ensures
            (r as nat, final(self).view()) == alloc_slot(old(self).view(), name@),
    {
        if let Some(i) = self.lookup(name) {
            return i;
        }
        let idx = self.names.len();
        self.names.push(name.clone());
        assert(self.view() =~= old(self).view().push(name@));
        idx
    }

    fn lookup(&self, name: &String) -> (r: Option<usize>)
        ensures
            match r {
                Some(i) => slot_named(self.view(), name@) == Some(i as nat),
                None => slot_named(self.view(), name@) is None,
            },
    {
        let ghost env = self.view();
        let mut i: usize = 0;
        while i < self.names.len()
            invariant
                env == self.view(),
                i <= env.len(),
                slot_upto(env, name@, i as nat) is None,
            decreases env.len() - i,
        {
            if self.names[i] == *name {
                proof {
                    lemma_slot_sticks(env, name@, (i + 1) as nat, env.len());
                }
                return Some(i);
            }
            i += 1;
        }
        None
    }

    /// The variable name of each slot, by slot index.
    fn reverse_names(&self) -> (r: Vec<String>)
        ensures
            names_view(r@) == self.view(),
    {
        let mut v: Vec<String> = Vec::new();
        let mut i: usize = 0;
        while i < self.names.len()
            invariant
                i <= self.names@.len(),
                v@.len() == i,
                forall|j: int| 0 <= j < i ==> (#[trigger] v@[j])@ == self.names@[j]@,
            decreases self.names@.len() - i,
        {
            v.push(self.names[i].clone());
            i += 1;
        }
        assert(names_view(v@) =~= names_view(self.names@));
        v
    }
}

/// The value of the global constant `name`.
fn lookup_global(globals: &Vec<(String, i32)>, name: &String) -> (r: Option<i32>)
    ensures
        r == global_named(globals_view(globals@), name@),
{
    let ghost g = globals_view(globals@);
    let mut found: Option<i32> = None;
    let mut i: usize = 0;
    while i < globals.len()
        invariant
            g == globals_view(globals@),
            i <= g.len(),
            found == global_upto(g, name@, i as nat),
        decreases g.len() - i,
    {
        if globals[i].0 == *name {
            found = Some(globals[i].1);
        }
        i += 1;
    }
    found
}

/// Lowers a parsed program to IR.
pub struct Codegen;

impl Codegen {
    pub fn new() -> Codegen {
        Codegen
    }

    /// Lowers every function of `program`, in declaration order. Top-level constants whose
    /// value is a literal are visible in every function; other declarations yield no code.
    pub fn compile(&mut self, program: &Program) -> (r: Result<ProgramIR, CodegenError>)
        ensures
            ({
                let decls = program.decls@;
                let g = globals_upto(decls, decls.len());
                let fs = funcs_upto(decls, decls.len());
                match r {
                    Ok(ir) => {
                        &&& first_failure(fs, g, fs.len()) is None
                        &&& ir.funcs@.len() == fs.len()
                        &&& forall|i: int|
                            0 <= i < fs.len() ==> lowers_to(#[trigger] ir.funcs@[i], fs[i], g)
                    },
                    Err(e) => first_failure(fs, g, fs.len()) == Some(e@),
                }
            }),
    {
        let ghost decls = program.decls@;
        let mut globals: Vec<(String, i32)> = Vec::new();
        let mut k: usize = 0;
        while k < program.decls.len()
            invariant
                decls == program.decls@,
                k <= decls.len(),
                globals_view(globals@) == globals_upto(decls, k as nat),
            decreases decls.len() - k,
        {
            if let TopDecl::Const(c) = &program.decls[k] {
                if let Expr::Number(n) = c.value {
                    globals.push((c.name.clone(), #[verifier::truncate] (n as i32)));
                    assert(globals_view(globals@) =~= globals_upto(decls, (k + 1) as nat));
                }
            }
            k += 1;
        }
        let ghost g = globals_view(globals@);
        let ghost fs = funcs_upto(decls, decls.len());

        let mut funcs: Vec<Func> = Vec::new();
        let mut k: usize = 0;
        while k < program.decls.len()
            invariant
                decls == program.decls@,
                g == globals_view(globals@),
                g == globals_upto(decls, decls.len()),
                fs == funcs_upto(decls, decls.len()),
                k <= decls.len(),
                funcs@.len() == funcs_upto(decls, k as nat).len(),
                first_failure(fs, g, funcs@.len()) is None,
                forall|i: int|
                    0 <= i < funcs@.len() ==> lowers_to(
                        #[trigger] funcs@[i],
                        funcs_upto(decls, k as nat)[i],
                        g,
                    ),
            decreases decls.len() - k,
        {
            proof {
                lemma_funcs_prefix(decls, k as nat, decls.len());
                lemma_funcs_prefix(decls, (k + 1) as nat, decls.len());
            }
            match &program.decls[k] {
                TopDecl::Func(f) => {
                    assert(funcs_upto(decls, (k + 1) as nat) == funcs_upto(decls, k as nat).push(*f));
                    assert(fs.subrange(0, funcs@.len() + 1 as int)[funcs@.len() as int] == *f);
                    assert(fs[funcs@.len() as int] == *f);
                    match self.compile_func(f, &globals) {
                        Ok(ir) => {
                            funcs.push(ir);
                        },
                        Err(e) => {
                            proof {
                                lemma_first_failure_sticks(
                                    fs,
                                    g,
                                    funcs@.len() + 1,
                                    fs.len(),
                                );
                            }
                            return Err(e);
                        },
                    }
                },
                _ => {},
            }
            k += 1;
        }
        Ok(ProgramIR { funcs })
    }

    fn compile_func(&mut self, f: &FuncDef, globals: &Vec<(String, i32)>) -> (r: Result<
        Func,
        CodegenError,
    >)
        ensures
            match r {
                Ok(ir) => lowers_to(ir, *f, globals_view(globals@)),
                Err(e) => func_code(*f, globals_view(globals@)) == Err::<
                    (Seq<Instr>, Env),
                    CodegenFailure,
                >(e@),
            },
    {
        let mut env = LocalEnv { names: Vec::new() };
        let mut p: usize = 0;
        while p < f.params.len()
            invariant
                p <= f.params@.len(),
                env.view() == params_env(f.params@, p as nat),
            decreases f.params@.len() - p,
        {
            env.allocate(&f.params[p].name);
            p += 1;
        }
        let mut code: Vec<Instr> = Vec::new();
        self.emit_block(&f.body, &mut env, globals, &mut code)?;
        code.push(Instr::Ret);
        let locals_dbg = env.reverse_names();
        Ok(Func { name: f.name.clone(), code, n_locals: env.names.len(), locals_dbg })
    }

    fn emit_block(
        &mut self,
        b: &Block,
        env: &mut LocalEnv,
        globals: &Vec<(String, i32)>,
        code: &mut Vec<Instr>,
    ) -> (r: Result<(), CodegenError>)
        ensures
            match block_upto(b.stmts@, old(env).view(), globals_view(globals@), b.stmts@.len()) {
                Ok((c, env2)) => r is Ok && final(code)@ == old(code)@ + c && final(env).view()
                    == env2,
                Err(f) => r matches Err(e) && e@ == f,
            },
    {
        let ghost g = globals_view(globals@);
        let ghost env0 = env.view();
        let ghost code0 = code@;
        assert(code@.subrange(code0.len() as int, code@.len() as int) =~= Seq::<Instr>::empty());
        assert(code@.subrange(0, code0.len() as int) =~= code0);
        let mut k: usize = 0;
        while k < b.stmts.len()
            invariant
                g == globals_view(globals@),
                env0 == old(env).view(),
                code0 == old(code)@,
                k <= b.stmts@.len(),
                block_upto(b.stmts@, env0, g, k as nat) == Ok::<(Seq<Instr>, Env), CodegenFailure>(
                    (code@.subrange(code0.len() as int, code@.len() as int), env.view()),
                ),
                code0.len() <= code@.len(),
                code@.subrange(0, code0.len() as int) == code0,
            decreases b.stmts@.len() - k,
        {
            let ghost before = code@;
            let ghost env_before = env.view();
            let res = self.emit_stmt(&b.stmts[k], env, globals, code);
            if let Err(e) = res {
                proof {
                    assert(block_upto(b.stmts@, env0, g, (k + 1) as nat) == Err::<
                        (Seq<Instr>, Env),
                        CodegenFailure,
                    >(e@));
                    lemma_block_failure_sticks(b.stmts@, env0, g, (k + 1) as nat, b.stmts@.len());
                }
                return Err(e);
            }
            proof {
                let sc = stmt_code(b.stmts@[k as int], env_before, g);
                assert(sc is Ok);
                let c2 = sc->Ok_0.0;
                assert(code@ == before + c2);
                assert(code@.subrange(before.len() as int, code@.len() as int) =~= c2);
                assert(code@.subrange(code0.len() as int, code@.len() as int) =~= before.subrange(
                    code0.len() as int,
                    before.len() as int,
                ) + code@.subrange(before.len() as int, code@.len() as int));
                assert(code@.subrange(0, code0.len() as int) =~= before.subrange(
                    0,
                    code0.len() as int,
                ));
            }
            k += 1;
        }
        proof {
            assert(code@ =~= code0 + code@.subrange(code0.len() as int, code@.len() as int));
        }
        Ok(())
    }

    fn emit_stmt(
        &mut self,
        s: &Stmt,
        env: &mut LocalEnv,
        globals: &Vec<(String, i32)>,
        code: &mut Vec<Instr>,
    ) -> (r: Result<(), CodegenError>)
        ensures
            match stmt_code(*s, old(env).view(), globals_view(globals@)) {
                Ok((c, env2)) => r is Ok && final(code)@ == old(code)@ + c && final(env).view()
                    == env2,
                Err(f) => r matches Err(e) && e@ == f,
            },
    {
        match s {
            Stmt::VarDecl(v) => {
                let idx = env.allocate(&v.name);
                match &v.value {
                    Some(e) => {
                        self.emit_expr(e, env, globals, code)?;
                        code.push(Instr::Store(idx));
                    },
                    None => {
                        code.push(Instr::PushI32(0));
                        code.push(Instr::Store(idx));
                        assert(code@ =~= old(code)@ + seq![Instr::PushI32(0), Instr::Store(idx)]);
                    },
                }
            },
            Stmt::ConstDecl(c) => {
                let idx = env.allocate(&c.name);
                self.emit_expr(&c.value, env, globals, code)?;
                code.push(Instr::Store(idx));
            },
            Stmt::Assign(a) => {
                let idx = match env.lookup(&a.name) {
                    Some(i) => i,
                    None => return Err(CodegenError::UndeclaredAssign(a.name.clone())),
                };
                self.emit_expr(&a.value, env, globals, code)?;
                code.push(Instr::Store(idx));
            },
            Stmt::Expr(e) => {
                self.emit_expr(e, env, globals, code)?;
                code.push(Instr::Pop);
            },
            Stmt::Return(opt) => {
                if let Some(e) = opt {
                    self.emit_expr(e, env, globals, code)?;
                }
                code.push(Instr::Ret);
            },
            Stmt::If(_) | Stmt::While(_) => {
                return Err(CodegenError::ControlFlow);
            },
        }
        proof {
            assert(code@ =~= old(code)@ + code@.subrange(old(code)@.len() as int, code@.len() as int));
        }
        Ok(())
    }

    fn emit_expr(
        &mut self,
        e: &Expr,
        env: &LocalEnv,
        globals: &Vec<(String, i32)>,
        code: &mut Vec<Instr>,
    ) -> (r: Result<(), CodegenError>)
        ensures
            match expr_code(*e, env.view(), globals_view(globals@)) {
                Ok(c) => r is Ok && final(code)@ == old(code)@ + c,
                Err(f) => r matches Err(x) && x@ == f,
            },
        decreases e,
    {
        match e {
            Expr::Number(n) => {
                code.push(Instr::PushI32(#[verifier::truncate] (*n as i32)));
            },
            Expr::Ident(name) => {
                if let Some(idx) = env.lookup(name) {
                    code.push(Instr::Load(idx));
                } else if let Some(value) = lookup_global(globals, name) {
                    code.push(Instr::PushI32(value));
                } else {
                    return Err(CodegenError::UndeclaredVariable(name.clone()));
                }
            },
            Expr::Builtin(b) => match b {
                Builtin::Print(arg) => {
                    self.emit_expr(arg, env, globals, code)?;
                    code.push(Instr::Print);
                },
                Builtin::Input => {
                    code.push(Instr::PushI32(0));
                },
                Builtin::Perform(_, _) => {
                    return Err(CodegenError::Perform);
                },
            },
            Expr::Unary { .. } | Expr::Binary { .. } | Expr::Call { .. } => {
                return Err(CodegenError::ComplexExpr);
            },
        }
        proof {
            assert(code@ =~= old(code)@ + code@.subrange(old(code)@.len() as int, code@.len() as int));
        }
        Ok(())
    }
}

/// The functions among the first `k` declarations are a prefix of those among the first `m`.
pub proof fn lemma_funcs_prefix(decls: Seq<TopDecl>, k: nat, m: nat)
    requires
        k <= m <= decls.len(),
    ensures
        funcs_upto(decls, k).len() <= funcs_upto(decls, m).len(),
        funcs_upto(decls, m).subrange(0, funcs_upto(decls, k).len() as int) == funcs_upto(
            decls,
            k,
        ),
    decreases m - k,
{
    if k < m {
        lemma_funcs_prefix(decls, k, (m - 1) as nat);
        assert(funcs_upto(decls, m).subrange(0, funcs_upto(decls, k).len() as int)
            =~= funcs_upto(decls, (m - 1) as nat).subrange(0, funcs_upto(decls, k).len() as int));
    } else {
        assert(funcs_upto(decls, m).subrange(0, funcs_upto(decls, k).len() as int) =~= funcs_upto(
            decls,
            k,
        ));
    }
}

/// Once a statement fails, the block fails with that failure.
pub proof fn lemma_block_failure_sticks(stmts: Seq<Stmt>, env: Env, g: Globals, k: nat, m: nat)
    requires
        k <= m <= stmts.len(),
        block_upto(stmts, env, g, k) is Err,
    ensures
        block_upto(stmts, env, g, m) == block_upto(stmts, env, g, k),
    decreases m - k,
{
    if k < m {
        lemma_block_failure_sticks(stmts, env, g, k, (m - 1) as nat);
    }
}

} // verus!
