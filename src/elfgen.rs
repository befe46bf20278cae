use vstd::prelude::*;

use crate::bytes::{append, append_le, le_bytes, le_value, lemma_le_bytes_len, lemma_le_round_trip, pow256};
use crate::image::{build_image, image_bytes};
use crate::ir::{Func, Instr, ProgramIR, has_main, is_first_main, is_main, lemma_first_main_unique, main_position};

verus! {

/// The largest number of local slots whose frame size fits a signed 32-bit immediate.
pub const MAX_LOCALS: usize = 0x0FFF_FFFF;

/// Why an IR program cannot be compiled to a native image.
#[derive(Debug, Clone, Copy, PartialEq, Eq, Structural)]
pub enum CompileError {
    /// The program has no function named `main`.
    NoMain,
    /// `main` declares more slots than a frame can address.
    FrameTooLarge { n_locals: usize },
    /// The instruction at `at` names a slot that `main` does not declare.
    SlotOutOfRange { at: usize, index: usize, n_locals: usize },
    /// The instruction at `at` needs more operands than the operand stack holds.
    StackUnderflow { at: usize },
}

// ---------------------------------------------------------------------------
// Encodings

/// The distance below the frame base at which slot `idx` lives.
pub open spec fn slot_offset(idx: nat) -> nat {
    (idx + 1) * 8
}

/// A signed 32-bit value as four little-endian two's-complement bytes.
pub open spec fn i32_le(v: int) -> Seq<u8> {
    le_bytes((if v < 0 { v + 0x1_0000_0000 } else { v }) as nat, 4)
}

/// `push rbp; mov rbp, rsp; sub rsp, 8 * n_locals` (the `sub` only for a non-empty frame).
pub open spec fn prologue_bytes(n_locals: nat) -> Seq<u8> {
    let size = n_locals * 8;
    seq![0x55u8, 0x48, 0x89, 0xE5] + if n_locals == 0 {
        Seq::<u8>::empty()
    } else if size <= 127 {
        seq![0x48u8, 0x83, 0xEC, size as u8]
    } else {
        seq![0x48u8, 0x81, 0xEC] + i32_le(size as int)
    }
}

/// The stack space that a prologue of the form `prologue_bytes` reserves.
pub open spec fn reserved_by_prologue(p: Seq<u8>) -> int {
    if p.len() == 8 && p[4] == 0x48 && p[5] == 0x83 && p[6] == 0xEC {
        p[7] as int
    } else if p.len() == 11 && p[4] == 0x48 && p[5] == 0x81 && p[6] == 0xEC {
        le_value(p.subrange(7, 11)) as int
    } else {
        0
    }
}

/// `push qword [rbp - off]`, through `rax` when the offset needs a 32-bit displacement.
pub open spec fn load_bytes(idx: nat) -> Seq<u8> {
    let off = slot_offset(idx);
    if off <= 128 {
        seq![0xFFu8, 0x75, (256 - off) as u8]
    } else {
        seq![0x48u8, 0x8B, 0x85] + i32_le(-off) + seq![0x50u8]
    }
}

/// `pop rax; mov [rbp - off], rax`.
pub open spec fn store_bytes(idx: nat) -> Seq<u8> {
    let off = slot_offset(idx);
    if off <= 128 {
        seq![0x58u8, 0x48, 0x89, 0x45, (256 - off) as u8]
    } else {
        seq![0x58u8, 0x48, 0x89, 0x85] + i32_le(-off)
    }
}

/// `xor edi, edi; mov rax, 60; syscall`: end the process with status 0.
pub open spec fn exit_zero_bytes() -> Seq<u8> {
    seq![0x31u8, 0xFF, 0x48, 0xC7, 0xC0, 0x3C, 0x00, 0x00, 0x00, 0x0F, 0x05]
}

/// `pop rdi; mov rax, 60; syscall`: end the process with the popped status.
pub open spec fn exit_popped_bytes() -> Seq<u8> {
    seq![0x5Fu8, 0x48, 0xC7, 0xC0, 0x3C, 0x00, 0x00, 0x00, 0x0F, 0x05]
}

/// Pops a value and writes it to standard output in decimal with a trailing newline.
///
/// Saves the registers it clobbers, converts in a 24-byte buffer on the stack (room for
/// nineteen digits, a sign and the newline), and leaves the stack as it found it, less the
/// popped operand. The magnitude is divided unsigned, so the most negative value prints too.
pub open spec fn print_bytes() -> Seq<u8> {
    seq![
        0x58u8, 0x53, 0x51, 0x52, 0x56, 0x57, 0x41, 0x53,
        0x48, 0x83, 0xEC, 0x18,
        0x48, 0x8D, 0x7C, 0x24, 0x17,
        0xC6, 0x07, 0x0A,
        0x48, 0xFF, 0xCF,
        0x48, 0x85, 0xC0,
        0x79, 0x07,
        0x48, 0xF7, 0xD8,
        0x6A, 0x01,
        0xEB, 0x02,
        0x6A, 0x00,
        0x48, 0xC7, 0xC3, 0x0A, 0x00, 0x00, 0x00,
        0x48, 0x31, 0xD2,
        0x48, 0xF7, 0xF3,
        0x80, 0xC2, 0x30,
        0x88, 0x17,
        0x48, 0xFF, 0xCF,
        0x48, 0x85, 0xC0,
        0x75, 0xED,
        0x58,
        0x84, 0xC0,
        0x74, 0x06,
        0xC6, 0x07, 0x2D,
        0x48, 0xFF, 0xCF,
        0x48, 0xFF, 0xC7,
        0x48, 0x8D, 0x74, 0x24, 0x18,
        0x48, 0x89, 0xF2,
        0x48, 0x29, 0xFA,
        0x48, 0x89, 0xFE,
        0x48, 0xC7, 0xC0, 0x01, 0x00, 0x00, 0x00,
        0x48, 0xC7, 0xC7, 0x01, 0x00, 0x00, 0x00,
        0x0F, 0x05,
        0x48, 0x83, 0xC4, 0x18,
        0x41, 0x5B, 0x5F, 0x5E, 0x5A, 0x59, 0x5B,
    ]
}

/// The machine code of one instruction, given the operand-stack depth before it.
pub open spec fn instr_bytes(i: Instr, depth: nat) -> Seq<u8> {
    match i {
        Instr::PushI32(v) => seq![0x68u8] + i32_le(v as int),
        Instr::Pop => if depth > 0 {
            seq![0x48u8, 0x83, 0xC4, 0x08]
        } else {
            Seq::<u8>::empty()
        },
        Instr::Load(idx) => load_bytes(idx as nat),
        Instr::Store(idx) => store_bytes(idx as nat),
        Instr::Add => seq![0x5Bu8, 0x58, 0x48, 0x01, 0xD8, 0x50],
        Instr::Sub => seq![0x5Bu8, 0x58, 0x48, 0x29, 0xD8, 0x50],
        Instr::Mul => seq![0x5Bu8, 0x58, 0x48, 0x0F, 0xAF, 0xC3, 0x50],
        Instr::Div => seq![0x5Bu8, 0x58, 0x48, 0x99, 0x48, 0xF7, 0xFB, 0x50],
        Instr::Print => print_bytes(),
        Instr::Ret => if depth > 0 {
            exit_popped_bytes()
        } else {
            exit_zero_bytes()
        },
    }
}

// ---------------------------------------------------------------------------
// The operand stack and the checks on it

/// How many operands an instruction needs on the operand stack. `Pop` and `Ret` take one
/// if there is one: a `Pop` of nothing does nothing, and a `Ret` of nothing exits with 0.
pub open spec fn operands_needed(i: Instr) -> nat {
    match i {
        Instr::PushI32(_) | Instr::Load(_) | Instr::Pop | Instr::Ret => 0,
        Instr::Store(_) | Instr::Print => 1,
        Instr::Add | Instr::Sub | Instr::Mul | Instr::Div => 2,
    }
}

pub open spec fn depth_after(i: Instr, depth: nat) -> nat {
    match i {
        Instr::PushI32(_) | Instr::Load(_) => depth + 1,
        Instr::Store(_) | Instr::Print => (depth - 1) as nat,
        Instr::Add | Instr::Sub | Instr::Mul | Instr::Div => (depth - 1) as nat,
        Instr::Pop | Instr::Ret => if depth > 0 {
            (depth - 1) as nat
        } else {
            0
        },
    }
}

/// The operand-stack depth before instruction `k`.
pub open spec fn depth_before(code: Seq<Instr>, k: nat) -> nat
    decreases k,
{
    if k == 0 || k > code.len() {
        0
    } else {
        depth_after(code[k - 1], depth_before(code, (k - 1) as nat))
    }
}

/// What is wrong with instruction `i` at position `at`, if anything.
pub open spec fn instr_error(i: Instr, depth: nat, n_locals: usize, at: int) -> Option<CompileError> {
    match slot_of(i) {
        Some(idx) if idx >= n_locals => Some(
            CompileError::SlotOutOfRange { at: at as usize, index: idx, n_locals },
        ),
        _ => if depth < operands_needed(i) {
            Some(CompileError::StackUnderflow { at: at as usize })
        } else {
            None
        },
    }
}

/// The local slot that an instruction reads or writes, if any.
pub open spec fn slot_of(i: Instr) -> Option<usize> {
    match i {
        Instr::Load(idx) | Instr::Store(idx) => Some(idx),
        _ => None,
    }
}

/// The first error among the first `k` instructions.
pub open spec fn first_error(code: Seq<Instr>, n_locals: usize, k: nat) -> Option<CompileError>
    decreases k,
{
    if k == 0 || k > code.len() {
        None
    } else {
        match first_error(code, n_locals, (k - 1) as nat) {
            Some(e) => Some(e),
            None => instr_error(
                code[k - 1],
                depth_before(code, (k - 1) as nat),
                n_locals,
                k - 1,
            ),
        }
    }
}

/// The machine code of the first `k` instructions.
pub open spec fn body_bytes(code: Seq<Instr>, k: nat) -> Seq<u8>
    decreases k,
{
    if k == 0 || k > code.len() {
        Seq::empty()
    } else {
        body_bytes(code, (k - 1) as nat) + instr_bytes(
            code[k - 1],
            depth_before(code, (k - 1) as nat),
        )
    }
}

pub open spec fn ends_in_return(code: Seq<Instr>) -> bool {
    code.len() > 0 && code.last() == Instr::Ret
}

/// The machine code of a whole function: prologue, body, and an exit when the body
/// does not end in a return.
pub open spec fn function_code(f: Func) -> Seq<u8> {
    prologue_bytes(f.n_locals as nat) + body_bytes(f.code@, f.code@.len()) + if ends_in_return(
        f.code@,
    ) {
        Seq::<u8>::empty()
    } else {
        exit_zero_bytes()
    }
}

/// The image that a program compiles to, or why it does not compile.
pub open spec fn program_image(prog: ProgramIR) -> Result<Seq<u8>, CompileError> {
    match main_position(prog.funcs@) {
        None => Err(CompileError::NoMain),
        Some(i) => {
            let f = prog.funcs@[i];
            if f.n_locals > MAX_LOCALS {
                Err(CompileError::FrameTooLarge { n_locals: f.n_locals })
            } else {
                match first_error(f.code@, f.n_locals, f.code@.len()) {
                    Some(e) => Err(e),
                    None => Ok(image_bytes(function_code(f), Seq::empty())),
                }
            }
        }
    }
}

/// Once an error is found among the first `k` instructions, it stays the first error.
pub proof fn lemma_first_error_sticks(code: Seq<Instr>, n_locals: usize, k: nat, m: nat)
    requires
        k <= m <= code.len(),
        first_error(code, n_locals, k) is Some,
    ensures
        first_error(code, n_locals, m) == first_error(code, n_locals, k),
    decreases m - k,
{
    if k < m {
        lemma_first_error_sticks(code, n_locals, k, (m - 1) as nat);
    }
}

// ---------------------------------------------------------------------------
// The emitter

/// Lowers the IR of `main` to x86-64 machine code and wraps it in an executable image.
pub struct Compiler {
    code: Vec<u8>,
    data: Vec<u8>,
}

impl Compiler {
    /// The machine code emitted so far.
    pub closed spec fn emitted(&self) -> Seq<u8> {
        self.code@
    }

    /// The static data placed after the code.
    pub closed spec fn static_data(&self) -> Seq<u8> {
        self.data@
    }

    pub fn new() -> (r: Compiler)
        ensures
            r.emitted().len() == 0,
            r.static_data().len() == 0,
    {
        Compiler { code: Vec::new(), data: Vec::new() }
    }

    /// Compiles `main` of `prog` and returns the bytes of the executable image.
    ///
    /// The result depends on `prog` alone, not on what this compiler built before: building
    /// the same program twice gives the same bytes.
    pub fn compile_program(&mut self, prog: &ProgramIR) -> (r: Result<Vec<u8>, CompileError>)
        ensures
            match r {
                Ok(image) => program_image(*prog) == Ok::<Seq<u8>, CompileError>(image@),
                Err(e) => program_image(*prog) == Err::<Seq<u8>, CompileError>(e),
            },
    {
        let main_idx = match prog.main_index() {
            Some(i) => i,
            None => return Err(CompileError::NoMain),
        };
        let f = &prog.funcs[main_idx];
        let n_locals = f.n_locals;
        assert(main_position(prog.funcs@) == Some(main_idx as int));
        assert(*f == prog.funcs@[main_idx as int]);
        if n_locals > MAX_LOCALS {
            return Err(CompileError::FrameTooLarge { n_locals });
        }
        self.code = Vec::new();
        self.data = Vec::new();
        self.emit_prologue(n_locals);

        let ghost code = f.code@;
        let mut depth: usize = 0;
        let mut k: usize = 0;
        while k < f.code.len()
            invariant
                main_position(prog.funcs@) == Some(main_idx as int),
                *f == prog.funcs@[main_idx as int],
                code == f.code@,
                n_locals == f.n_locals,
                n_locals <= MAX_LOCALS,
                k <= code.len(),
                depth == depth_before(code, k as nat),
                depth <= k,
                first_error(code, n_locals, k as nat) is None,
                self.code@ == prologue_bytes(n_locals as nat) + body_bytes(code, k as nat),
                self.data@.len() == 0,
            decreases code.len() - k,
        {
            let instr = f.code[k];
            match instr {
                Instr::Load(idx) | Instr::Store(idx) => {
                    if idx >= n_locals {
                        let e = CompileError::SlotOutOfRange { at: k, index: idx, n_locals };
                        proof {
                            assert(instr_error(instr, depth as nat, n_locals, k as int) == Some(e));
                            lemma_first_error_sticks(code, n_locals, (k + 1) as nat, code.len());
                        }
                        return Err(e);
                    }
                },
                _ => {},
            }
            if depth < operands_needed_exec(instr) {
                let e = CompileError::StackUnderflow { at: k };
                proof {
                    assert(instr_error(instr, depth as nat, n_locals, k as int) == Some(e));
                    lemma_first_error_sticks(code, n_locals, (k + 1) as nat, code.len());
                }
                return Err(e);
            }
            assert(instr_error(instr, depth as nat, n_locals, k as int) is None);
            self.compile_instr(instr, depth, n_locals);
            depth = next_depth(instr, depth);
            k += 1;
        }
        if !(f.code.len() > 0 && f.code[f.code.len() - 1] == Instr::Ret) {
            self.emit_exit_zero();
        }
        proof {
            assert(code.len() > 0 ==> code.last() == code[code.len() - 1]);
            assert(self.code@ == function_code(*f));
        }
        Ok(self.generate_elf())
    }

    /// Emits the frame setup for `n_locals` slots.
    fn emit_prologue(&mut self, n_locals: usize)
        requires
            n_locals <= MAX_LOCALS,
        ensures
            final(self).code@ == old(self).code@ + prologue_bytes(n_locals as nat),
            final(self).data@ == old(self).data@,
    {
        append(&mut self.code, &[0x55, 0x48, 0x89, 0xE5]);
        let ghost mid = self.code@;
        if n_locals > 0 {
            let size: u64 = n_locals as u64 * 8;
            if size <= 127 {
                append(&mut self.code, &[0x48, 0x83, 0xEC, size as u8]);
            } else {
                append(&mut self.code, &[0x48, 0x81, 0xEC]);
                append_le(&mut self.code, size, 4);
            }
        }
        proof {
            let size = n_locals as nat * 8;
            if n_locals == 0 {
                assert(self.code@ == mid);
            }
            assert(self.code@ == old(self).code@ + prologue_bytes(n_locals as nat));
        }
    }

    /// Emits the machine code of one instruction that passed the checks.
    fn compile_instr(&mut self, instr: Instr, depth: usize, n_locals: usize)
        requires
            n_locals <= MAX_LOCALS,
            instr_error(instr, depth as nat, n_locals, 0) is None,
        ensures
            final(self).code@ == old(self).code@ + instr_bytes(instr, depth as nat),
            final(self).data@ == old(self).data@,
    {
        match instr {
            Instr::PushI32(n) => self.emit_push_i32(n),
            Instr::Pop => self.emit_pop_discard(depth),
            Instr::Load(idx) => self.emit_load(idx),
            Instr::Store(idx) => self.emit_store(idx),
            Instr::Add => self.emit_add(),
            Instr::Sub => self.emit_sub(),
            Instr::Mul => self.emit_mul(),
            Instr::Div => self.emit_div(),
            Instr::Print => self.emit_print(),
            Instr::Ret => self.emit_return(depth),
        }
    }

    /// `push imm32`, sign-extended to 64 bits.
    fn emit_push_i32(&mut self, value: i32)
        ensures
            final(self).code@ == old(self).code@ + instr_bytes(Instr::PushI32(value), 0),
            final(self).data@ == old(self).data@,
    {
        append(&mut self.code, &[0x68]);
        let bits: u64 = if value < 0 {
            (value as i64 + 0x1_0000_0000) as u64
        } else {
            value as u64
        };
        append_le(&mut self.code, bits, 4);
    }

    /// `add rsp, 8`, or nothing when the operand stack is empty.
    fn emit_pop_discard(&mut self, depth: usize)
        ensures
            final(self).code@ == old(self).code@ + instr_bytes(Instr::Pop, depth as nat),
            final(self).data@ == old(self).data@,
    {
        if depth > 0 {
            append(&mut self.code, &[0x48, 0x83, 0xC4, 0x08]);
        } else {
            assert(self.code@ == old(self).code@ + Seq::<u8>::empty());
        }
    }

    /// Appends the 32-bit displacement `-offset`.
    fn emit_neg_disp32(&mut self, offset: u64)
        requires
            0 < offset <= 0x8000_0000,
        ensures
            final(self).code@ == old(self).code@ + i32_le(-(offset as int)),
            final(self).data@ == old(self).data@,
    {
        append_le(&mut self.code, 0x1_0000_0000 - offset, 4);
    }

    fn emit_load(&mut self, idx: usize)
        requires
            idx < MAX_LOCALS,
        ensures
            final(self).code@ == old(self).code@ + load_bytes(idx as nat),
            final(self).data@ == old(self).data@,
    {
        let offset: u64 = (idx as u64 + 1) * 8;
        if offset <= 128 {
            append(&mut self.code, &[0xFF, 0x75, (256 - offset) as u8]);
        } else {
            append(&mut self.code, &[0x48, 0x8B, 0x85]);
            self.emit_neg_disp32(offset);
            append(&mut self.code, &[0x50]);
        }
    }

    fn emit_store(&mut self, idx: usize)
        requires
            idx < MAX_LOCALS,
        ensures
            final(self).code@ == old(self).code@ + store_bytes(idx as nat),
            final(self).data@ == old(self).data@,
    {
        let offset: u64 = (idx as u64 + 1) * 8;
        if offset <= 128 {
            append(&mut self.code, &[0x58, 0x48, 0x89, 0x45, (256 - offset) as u8]);
        } else {
            append(&mut self.code, &[0x58, 0x48, 0x89, 0x85]);
            self.emit_neg_disp32(offset);
        }
    }

    /// `pop rbx; pop rax; add rax, rbx; push rax`.
    fn emit_add(&mut self)
        ensures
            final(self).code@ == old(self).code@ + instr_bytes(Instr::Add, 0),
            final(self).data@ == old(self).data@,
    {
        append(&mut self.code, &[0x5B, 0x58, 0x48, 0x01, 0xD8, 0x50]);
    }

    /// `pop rbx; pop rax; sub rax, rbx; push rax`.
    fn emit_sub(&mut self)
        ensures
            final(self).code@ == old(self).code@ + instr_bytes(Instr::Sub, 0),
            final(self).data@ == old(self).data@,
    {
        append(&mut self.code, &[0x5B, 0x58, 0x48, 0x29, 0xD8, 0x50]);
    }

    /// `pop rbx; pop rax; imul rax, rbx; push rax`.
    fn emit_mul(&mut self)
        ensures
            final(self).code@ == old(self).code@ + instr_bytes(Instr::Mul, 0),
            final(self).data@ == old(self).data@,
    {
        append(&mut self.code, &[0x5B, 0x58, 0x48, 0x0F, 0xAF, 0xC3, 0x50]);
    }

    /// `pop rbx; pop rax; cqo; idiv rbx; push rax`: the quotient truncated toward zero.
    fn emit_div(&mut self)
        ensures
            final(self).code@ == old(self).code@ + instr_bytes(Instr::Div, 0),
            final(self).data@ == old(self).data@,
    {
        append(&mut self.code, &[0x5B, 0x58, 0x48, 0x99, 0x48, 0xF7, 0xFB, 0x50]);
    }

    fn emit_print(&mut self)
        ensures
            final(self).code@ == old(self).code@ + print_bytes(),
            final(self).data@ == old(self).data@,
    {
        append(
            &mut self.code,
            &[
                0x58,  // pop rax                  the value
                0x53, 0x51, 0x52, 0x56, 0x57, 0x41, 0x53,  // push rbx, rcx, rdx, rsi, rdi, r11
                0x48, 0x83, 0xEC, 0x18,  // sub rsp, 24
                0x48, 0x8D, 0x7C, 0x24, 0x17,  // lea rdi, [rsp + 23]    last byte of the buffer
                0xC6, 0x07, 0x0A,  // mov byte [rdi], '\n'
                0x48, 0xFF, 0xCF,  // dec rdi
                0x48, 0x85, 0xC0,  // test rax, rax
                0x79, 0x07,  // jns positive
                0x48, 0xF7, 0xD8,  // neg rax
                0x6A, 0x01,  // push 1                   sign flag
                0xEB, 0x02,  // jmp convert
                0x6A, 0x00,  // positive: push 0
                0x48, 0xC7, 0xC3, 0x0A, 0x00, 0x00, 0x00,  // convert: mov rbx, 10
                0x48, 0x31, 0xD2,  // digit: xor rdx, rdx
                0x48, 0xF7, 0xF3,  // div rbx                  unsigned
                0x80, 0xC2, 0x30,  // add dl, '0'
                0x88, 0x17,  // mov [rdi], dl
                0x48, 0xFF, 0xCF,  // dec rdi
                0x48, 0x85, 0xC0,  // test rax, rax
                0x75, 0xED,  // jnz digit
                0x58,  // pop rax                  sign flag
                0x84, 0xC0,  // test al, al
                0x74, 0x06,  // jz write
                0xC6, 0x07, 0x2D,  // mov byte [rdi], '-'
                0x48, 0xFF, 0xCF,  // dec rdi
                0x48, 0xFF, 0xC7,  // write: inc rdi            first character
                0x48, 0x8D, 0x74, 0x24, 0x18,  // lea rsi, [rsp + 24]    end of the buffer
                0x48, 0x89, 0xF2,  // mov rdx, rsi
                0x48, 0x29, 0xFA,  // sub rdx, rdi             length
                0x48, 0x89, 0xFE,  // mov rsi, rdi
                0x48, 0xC7, 0xC0, 0x01, 0x00, 0x00, 0x00,  // mov rax, 1               write
                0x48, 0xC7, 0xC7, 0x01, 0x00, 0x00, 0x00,  // mov rdi, 1               stdout
                0x0F, 0x05,  // syscall
                0x48, 0x83, 0xC4, 0x18,  // add rsp, 24
                0x41, 0x5B, 0x5F, 0x5E, 0x5A, 0x59, 0x5B,  // pop r11, rdi, rsi, rdx, rcx, rbx
            ],
        );
    }

    /// Ends the process with the popped value as its status, or 0 on an empty operand stack.
    fn emit_return(&mut self, depth: usize)
        ensures
            final(self).code@ == old(self).code@ + instr_bytes(Instr::Ret, depth as nat),
            final(self).data@ == old(self).data@,
    {
        if depth > 0 {
            append(&mut self.code, &[0x5F, 0x48, 0xC7, 0xC0, 0x3C, 0x00, 0x00, 0x00, 0x0F, 0x05]);
        } else {
            self.emit_exit_zero();
        }
    }

    fn emit_exit_zero(&mut self)
        ensures
            final(self).code@ == old(self).code@ + exit_zero_bytes(),
            final(self).data@ == old(self).data@,
    {
        append(&mut self.code, &[0x31, 0xFF, 0x48, 0xC7, 0xC0, 0x3C, 0x00, 0x00, 0x00, 0x0F, 0x05]);
    }

    /// The executable image of the code and data emitted so far.
    fn generate_elf(&self) -> (r: Vec<u8>)
        requires
            self.data@.len() == 0,
        ensures
            r@ == image_bytes(self.code@, self.data@),
    {
        let n = self.code.len();
        build_image(&self.code, &self.data)
    }
}

fn operands_needed_exec(i: Instr) -> (r: usize)
    ensures
        r == operands_needed(i),
{
    match i {
        Instr::PushI32(_) | Instr::Load(_) | Instr::Pop | Instr::Ret => 0,
        Instr::Store(_) | Instr::Print => 1,
        Instr::Add | Instr::Sub | Instr::Mul | Instr::Div => 2,
    }
}

fn next_depth(i: Instr, depth: usize) -> (r: usize)
    requires
        depth >= operands_needed(i),
        depth < usize::MAX,
    ensures
        r == depth_after(i, depth as nat),
{
    match i {
        Instr::PushI32(_) | Instr::Load(_) => depth + 1,
        Instr::Store(_) | Instr::Print => depth - 1,
        Instr::Add | Instr::Sub | Instr::Mul | Instr::Div => depth - 1,
        Instr::Pop | Instr::Ret => if depth > 0 {
            depth - 1
        } else {
            0
        },
    }
}

} // verus!

verus! {

// ---------------------------------------------------------------------------
// Laws

/// For every frame that fits, the prologue reserves exactly eight bytes per slot.
pub proof fn lemma_prologue_reserves_frame(n_locals: nat)
    requires
        n_locals <= MAX_LOCALS,
    ensures
        reserved_by_prologue(prologue_bytes(n_locals)) == n_locals * 8,
{
    let p = prologue_bytes(n_locals);
    let size = n_locals * 8;
    if n_locals == 0 {
        assert(p.len() == 4);
    } else if size <= 127 {
        assert(p.len() == 8);
        assert(p[7] == size);
    } else {
        lemma_pow256_four();
        lemma_le_bytes_len(size, 4);
        lemma_le_round_trip(size, 4);
        assert(p.subrange(7, 11) == i32_le(size as int));
    }
}

pub proof fn lemma_pow256_four()
    ensures
        pow256(4) == 0x1_0000_0000,
{
    assert(pow256(0) == 1);
    assert(pow256(1) == 256);
    assert(pow256(2) == 0x1_0000);
    assert(pow256(3) == 0x100_0000);
}

/// Distinct slots live at distinct frame offsets, and the loads and stores of distinct
/// slots carry distinct displacements.
pub proof fn lemma_slots_distinct(i: nat, j: nat)
    requires
        i != j,
        i < MAX_LOCALS,
        j < MAX_LOCALS,
    ensures
        slot_offset(i) != slot_offset(j),
        load_bytes(i) != load_bytes(j),
        store_bytes(i) != store_bytes(j),
{
    let oi = slot_offset(i);
    let oj = slot_offset(j);
    lemma_pow256_four();
    lemma_le_bytes_len((0x1_0000_0000 - oi) as nat, 4);
    lemma_le_bytes_len((0x1_0000_0000 - oj) as nat, 4);
    if oi <= 128 && oj <= 128 {
        assert(load_bytes(i)[2] != load_bytes(j)[2]);
        assert(store_bytes(i)[4] != store_bytes(j)[4]);
    } else if oi > 128 && oj > 128 {
        lemma_le_round_trip((0x1_0000_0000 - oi) as nat, 4);
        lemma_le_round_trip((0x1_0000_0000 - oj) as nat, 4);
        assert(load_bytes(i).subrange(3, 7) == i32_le(-oi));
        assert(load_bytes(j).subrange(3, 7) == i32_le(-oj));
        assert(store_bytes(i).subrange(4, 8) == i32_le(-oi));
        assert(store_bytes(j).subrange(4, 8) == i32_le(-oj));
    } else {
        assert(load_bytes(i).len() != load_bytes(j).len());
        assert(store_bytes(i).len() != store_bytes(j).len());
    }
}

/// Two programs with the same functions (names, code and slot counts) have the same image.
pub open spec fn same_functions(a: ProgramIR, b: ProgramIR) -> bool {
    &&& a.funcs@.len() == b.funcs@.len()
    &&& forall|i: int|
        0 <= i < a.funcs@.len() ==> {
            &&& (#[trigger] a.funcs@[i]).name@ == b.funcs@[i].name@
            &&& a.funcs@[i].code@ == b.funcs@[i].code@
            &&& a.funcs@[i].n_locals == b.funcs@[i].n_locals
        }
}

/// Building is deterministic: the image depends on the program's functions alone, so
/// building the same program twice gives byte-identical images.
pub proof fn lemma_build_deterministic(a: ProgramIR, b: ProgramIR)
    requires
        same_functions(a, b),
    ensures
        program_image(a) == program_image(b),
{
    let fa = a.funcs@;
    let fb = b.funcs@;
    assert forall|i: int| is_first_main(fa, i) <==> is_first_main(fb, i) by {
        if 0 <= i < fa.len() {
            assert(fa[i].name@ == fb[i].name@);
            if is_first_main(fa, i) {
                assert forall|j: int| 0 <= j < i implies !is_main(#[trigger] fb[j]) by {
                    assert(fa[j].name@ == fb[j].name@);
                    assert(!is_main(fa[j]));
                }
            }
            if is_first_main(fb, i) {
                assert forall|j: int| 0 <= j < i implies !is_main(#[trigger] fa[j]) by {
                    assert(fa[j].name@ == fb[j].name@);
                    assert(!is_main(fb[j]));
                }
            }
        }
    }
    if exists|i: int| is_first_main(fa, i) {
        let ia = choose|i: int| is_first_main(fa, i);
        let ib = choose|i: int| is_first_main(fb, i);
        assert(is_first_main(fb, ia));
        lemma_first_main_unique(fb, ia, ib);
        assert(fa[ia].code@ == fb[ia].code@);
        assert(function_code(fa[ia]) == function_code(fb[ia]));
    }
}

/// A program without a `main` function is rejected.
pub proof fn lemma_rejects_missing_main(prog: ProgramIR)
    requires
        !has_main(prog.funcs@),
    ensures
        program_image(prog) == Err::<Seq<u8>, CompileError>(CompileError::NoMain),
{
    if exists|i: int| is_first_main(prog.funcs@, i) {
        let i = choose|i: int| is_first_main(prog.funcs@, i);
        assert(is_main(prog.funcs@[i]));
    }
}

/// A program whose `main` names a slot outside its frame is rejected.
pub proof fn lemma_rejects_slot_out_of_range(prog: ProgramIR, m: int, k: int)
    requires
        main_position(prog.funcs@) == Some(m),
        0 <= k < prog.funcs@[m].code@.len(),
        slot_of(prog.funcs@[m].code@[k]) matches Some(idx) && idx >= prog.funcs@[m].n_locals,
    ensures
        program_image(prog) is Err,
{
    let f = prog.funcs@[m];
    let code = f.code@;
    if f.n_locals <= MAX_LOCALS {
        if first_error(code, f.n_locals, k as nat) is None {
            assert(first_error(code, f.n_locals, (k + 1) as nat) is Some);
            lemma_first_error_sticks(code, f.n_locals, (k + 1) as nat, code.len());
        } else {
            lemma_first_error_sticks(code, f.n_locals, k as nat, code.len());
        }
    }
}

} // verus!
