use vstd::prelude::*;

use crate::ir::{Instr, ProgramIR, main_position};

verus! {

/// Runs the IR of `main` directly, without producing a binary.
pub struct VM;

/// What a finished run produced: the values printed, in order, and the exit status.
#[derive(Debug, Clone)]
pub struct Execution {
    pub printed: Vec<i32>,
    pub exit: i32,
}

/// Why a run stopped without an exit status.
#[derive(Debug, Clone, Copy, PartialEq, Eq, Structural)]
pub enum VmError {
    /// The program has no function named `main`.
    NoMain,
    /// The instruction at `at` needs more operands than the stack holds.
    StackUnderflow { at: usize },
    /// The instruction at `at` names a slot that `main` does not declare.
    SlotOutOfRange { at: usize },
    /// The instruction at `at` divides by zero.
    DivisionByZero { at: usize },
    /// The instruction at `at` computes a value outside the 32-bit range.
    Overflow { at: usize },
}

/// The state of the machine between two instructions.
pub enum Machine {
    Running { stack: Seq<i32>, locals: Seq<i32>, printed: Seq<i32> },
    Halted { exit: i32, printed: Seq<i32> },
    Failed { error: VmError },
}

pub open spec fn fits_i32(v: int) -> bool {
    i32::MIN <= v <= i32::MAX
}

/// Integer division truncated toward zero.
pub open spec fn trunc_div(a: int, b: int) -> int {
    let q = (if a < 0 { -a } else { a }) / (if b < 0 { -b } else { b });
    if (a < 0) != (b < 0) {
        -q
    } else {
        q
    }
}

pub open spec fn arith(i: Instr, a: int, b: int) -> int {
    match i {
        Instr::Add => a + b,
        Instr::Sub => a - b,
        Instr::Mul => a * b,
        _ => trunc_div(a, b),
    }
}

/// One instruction, at position `at`, on a running machine.
pub open spec fn step(
    stack: Seq<i32>,
    locals: Seq<i32>,
    printed: Seq<i32>,
    i: Instr,
    at: int,
) -> Machine {
    let running = |s: Seq<i32>, l: Seq<i32>, p: Seq<i32>|
        Machine::Running { stack: s, locals: l, printed: p };
    let at_u = at as usize;
    match i {
        Instr::PushI32(v) => running(stack.push(v), locals, printed),
        Instr::Pop => if stack.len() == 0 {
            running(stack, locals, printed)
        } else {
            running(stack.drop_last(), locals, printed)
        },
        Instr::Load(idx) => if idx >= locals.len() {
            Machine::Failed { error: VmError::SlotOutOfRange { at: at_u } }
        } else {
            running(stack.push(locals[idx as int]), locals, printed)
        },
        Instr::Store(idx) => if stack.len() == 0 {
            Machine::Failed { error: VmError::StackUnderflow { at: at_u } }
        } else if idx >= locals.len() {
            Machine::Failed { error: VmError::SlotOutOfRange { at: at_u } }
        } else {
            running(stack.drop_last(), locals.update(idx as int, stack.last()), printed)
        },
        Instr::Print => if stack.len() == 0 {
            Machine::Failed { error: VmError::StackUnderflow { at: at_u } }
        } else {
            running(stack.drop_last(), locals, printed.push(stack.last()))
        },
        Instr::Ret => Machine::Halted {
            exit: if stack.len() == 0 {
                0
            } else {
                stack.last()
            },
            printed,
        },
        _ => if stack.len() < 2 {
            Machine::Failed { error: VmError::StackUnderflow { at: at_u } }
        } else {
            let b = stack.last();
            let a = stack.drop_last().last();
            if i == Instr::Div && b == 0 {
                Machine::Failed { error: VmError::DivisionByZero { at: at_u } }
            } else if !fits_i32(arith(i, a as int, b as int)) {
                Machine::Failed { error: VmError::Overflow { at: at_u } }
            } else {
                running(
                    stack.drop_last().drop_last().push(arith(i, a as int, b as int) as i32),
                    locals,
                    printed,
                )
            }
        },
    }
}

/// The machine after the first `k` instructions; a halted or failed machine stays so.
pub open spec fn run_upto(code: Seq<Instr>, n_locals: nat, k: nat) -> Machine
    decreases k,
{
    if k == 0 || k > code.len() {
        Machine::Running {
            stack: Seq::empty(),
            locals: Seq::new(n_locals, |j: int| 0i32),
            printed: Seq::empty(),
        }
    } else {
        match run_upto(code, n_locals, (k - 1) as nat) {
            Machine::Running { stack, locals, printed } => step(
                stack,
                locals,
                printed,
                code[k - 1],
                k - 1,
            ),
            m => m,
        }
    }
}

/// What running `main` prints and returns, or why it fails. Running off the end of the
/// code exits with status 0.
pub open spec fn run_result(prog: ProgramIR) -> Result<(Seq<i32>, i32), VmError> {
    match main_position(prog.funcs@) {
        None => Err(VmError::NoMain),
        Some(m) => {
            let f = prog.funcs@[m];
            match run_upto(f.code@, f.n_locals as nat, f.code@.len()) {
                Machine::Running { printed, .. } => Ok((printed, 0i32)),
                Machine::Halted { exit, printed } => Ok((printed, exit)),
                Machine::Failed { error } => Err(error),
            }
        }
    }
}

/// Once the machine halts or fails, later instructions change nothing.
pub proof fn lemma_stopped_stays(code: Seq<Instr>, n_locals: nat, k: nat, m: nat)
    requires
        k <= m <= code.len(),
        !(run_upto(code, n_locals, k) is Running),
    ensures
        run_upto(code, n_locals, m) == run_upto(code, n_locals, k),
    decreases m - k,
{
    if k < m {
        lemma_stopped_stays(code, n_locals, k, (m - 1) as nat);
    }
}

/// `a op b` on 32-bit values, or why it has no 32-bit result.
fn apply_arith(i: Instr, a: i32, b: i32, at: usize) -> (r: Result<i32, VmError>)
    requires
        i is Add || i is Sub || i is Mul || i is Div,
    ensures
        match r {
            Ok(v) => {
                &&& !(i == Instr::Div && b == 0)
                &&& fits_i32(arith(i, a as int, b as int))
                &&& v == arith(i, a as int, b as int)
            },
            Err(e) => {
                ||| (i == Instr::Div && b == 0 && e == VmError::DivisionByZero { at })
                ||| (!(i == Instr::Div && b == 0) && !fits_i32(arith(i, a as int, b as int)) && e
                    == VmError::Overflow { at })
            },
        },
{
    let wide: i64 = match i {
        Instr::Add => a as i64 + b as i64,
        Instr::Sub => a as i64 - b as i64,
        Instr::Mul => {
            assert(-0x4000_0000_0000_0000 <= a as int * b as int <= 0x4000_0000_0000_0000)
                by (nonlinear_arith)
                requires
                    i32::MIN <= a <= i32::MAX,
                    i32::MIN <= b <= i32::MAX,
            ;
            a as i64 * b as i64
        },
        _ => {
            if b == 0 {
                return Err(VmError::DivisionByZero { at });
            }
            let ua: i64 = if a < 0 { -(a as i64) } else { a as i64 };
            let ub: i64 = if b < 0 { -(b as i64) } else { b as i64 };
            let q: i64 = ua / ub;
            if (a < 0) != (b < 0) {
                -q
            } else {
                q
            }
        },
    };
    if wide < i32::MIN as i64 || wide > i32::MAX as i64 {
        return Err(VmError::Overflow { at });
    }
    Ok(wide as i32)
}

impl VM {
    /// Runs `main` of `prog` and returns what it printed and its exit status.
    pub fn run(prog: &ProgramIR) -> (r: Result<Execution, VmError>)
        ensures
            match r {
                Ok(e) => run_result(*prog) == Ok::<(Seq<i32>, i32), VmError>((e.printed@, e.exit)),
                Err(e) => run_result(*prog) == Err::<(Seq<i32>, i32), VmError>(e),
            },
    {
        let main_idx = match prog.main_index() {
            Some(i) => i,
            None => return Err(VmError::NoMain),
        };
        let main = &prog.funcs[main_idx];
        let ghost code = main.code@;
        let ghost n = main.n_locals as nat;

        let mut stack: Vec<i32> = Vec::new();
        let mut locals: Vec<i32> = vec![0; main.n_locals];
        let mut printed: Vec<i32> = Vec::new();
        proof {
            assert(locals@ =~= Seq::new(n, |j: int| 0i32));
        }

        let mut ip: usize = 0;
        while ip < main.code.len()
            invariant
                main_position(prog.funcs@) == Some(main_idx as int),
                *main == prog.funcs@[main_idx as int],
                code == main.code@,
                n == main.n_locals,
                ip <= code.len(),
                run_upto(code, n, ip as nat) == (Machine::Running {
                    stack: stack@,
                    locals: locals@,
                    printed: printed@,
                }),
            decreases code.len() - ip,
        {
            let instr = main.code[ip];
            let ghost before = run_upto(code, n, ip as nat);
            let ghost next = run_upto(code, n, (ip + 1) as nat);
            assert(next == step(stack@, locals@, printed@, instr, ip as int));
            match instr {
                Instr::PushI32(v) => stack.push(v),
                Instr::Pop => {
                    stack.pop();
                },
                Instr::Load(idx) => {
                    if idx >= locals.len() {
                        proof {
                            lemma_stopped_stays(code, n, (ip + 1) as nat, code.len());
                        }
                        return Err(VmError::SlotOutOfRange { at: ip });
                    }
                    stack.push(locals[idx]);
                },
                Instr::Store(idx) => {
                    let v = match stack.pop() {
                        Some(v) => v,
                        None => {
                            proof {
                                lemma_stopped_stays(code, n, (ip + 1) as nat, code.len());
                            }
                            return Err(VmError::StackUnderflow { at: ip });
                        },
                    };
                    if idx >= locals.len() {
                        proof {
                            lemma_stopped_stays(code, n, (ip + 1) as nat, code.len());
                        }
                        return Err(VmError::SlotOutOfRange { at: ip });
                    }
                    locals.set(idx, v);
                },
                Instr::Print => {
                    match stack.pop() {
                        Some(v) => printed.push(v),
                        None => {
                            proof {
                                lemma_stopped_stays(code, n, (ip + 1) as nat, code.len());
                            }
                            return Err(VmError::StackUnderflow { at: ip });
                        },
                    }
                },
                Instr::Ret => {
                    let exit = match stack.pop() {
                        Some(v) => v,
                        None => 0,
                    };
                    proof {
                        lemma_stopped_stays(code, n, (ip + 1) as nat, code.len());
                    }
                    return Ok(Execution { printed, exit });
                },
                _ => {
                    if stack.len() < 2 {
                        proof {
                            lemma_stopped_stays(code, n, (ip + 1) as nat, code.len());
                        }
                        return Err(VmError::StackUnderflow { at: ip });
                    }
                    let b = stack.pop().unwrap();
                    let a = stack.pop().unwrap();
                    match apply_arith(instr, a, b, ip) {
                        Ok(v) => stack.push(v),
                        Err(e) => {
                            proof {
                                lemma_stopped_stays(code, n, (ip + 1) as nat, code.len());
                            }
                            return Err(e);
                        },
                    }
                },
            }
            ip += 1;
        }
        Ok(Execution { printed, exit: 0 })
    }
}

} // verus!
