use nativec::codegen::Codegen;
use nativec::elfgen::Compiler;
use nativec::lexer::Lexer;
use nativec::parser::Parser;
use nativec::ir::{Func, Instr, ProgramIR};
use nativec::samplegen::hello_image;

// A small interpreter for the x86-64 instructions that the compiler emits, so that tests can
// run the images they build: it loads the one segment, starts at the entry point, and
// records what the program writes to standard output and the status it exits with.

const STACK_TOP: u64 = 0x7FFF_0000;
const STACK_SIZE: u64 = 0x10_0000;

struct Machine {
    regs: [u64; 16],
    rip: u64,
    zf: bool,
    sf: bool,
    seg_vaddr: u64,
    seg: Vec<u8>,
    stack: Vec<u8>,
    out: Vec<u8>,
}

const RAX: usize = 0;
const RCX: usize = 1;
const RDX: usize = 2;
const RBX: usize = 3;
const RSP: usize = 4;
const RBP: usize = 5;
const RSI: usize = 6;
const RDI: usize = 7;
const R11: usize = 11;

fn le_u64(b: &[u8]) -> u64 {
    u64::from_le_bytes(b.try_into().unwrap())
}

impl Machine {
    fn load(image: &[u8]) -> Machine {
        assert_eq!(&image[..4], &[0x7F, b'E', b'L', b'F']);
        let entry = le_u64(&image[24..32]);
        let phoff = le_u64(&image[32..40]) as usize;
        let offset = le_u64(&image[phoff + 8..phoff + 16]) as usize;
        let vaddr = le_u64(&image[phoff + 16..phoff + 24]);
        let filesz = le_u64(&image[phoff + 32..phoff + 40]) as usize;
        assert_eq!(offset + filesz, image.len());
        let mut regs = [0u64; 16];
        regs[RSP] = STACK_TOP;
        regs[R11] = 0x1111;
        regs[RCX] = 0x2222;
        regs[RBX] = 0x3333;
        regs[RDX] = 0x4444;
        regs[RSI] = 0x5555;
        Machine {
            regs,
            rip: entry,
            zf: false,
            sf: false,
            seg_vaddr: vaddr,
            seg: image[offset..].to_vec(),
            stack: vec![0; STACK_SIZE as usize],
            out: Vec::new(),
        }
    }

    fn read_u8(&self, addr: u64) -> u8 {
        if addr >= self.seg_vaddr && addr < self.seg_vaddr + self.seg.len() as u64 {
            self.seg[(addr - self.seg_vaddr) as usize]
        } else if addr >= STACK_TOP - STACK_SIZE && addr < STACK_TOP {
            self.stack[(addr - (STACK_TOP - STACK_SIZE)) as usize]
        } else {
            panic!("read outside mapped memory at {addr:#x}")
        }
    }

    fn write_u8(&mut self, addr: u64, v: u8) {
        assert!(addr >= STACK_TOP - STACK_SIZE && addr < STACK_TOP, "write outside the stack");
        self.stack[(addr - (STACK_TOP - STACK_SIZE)) as usize] = v;
    }

    fn read_u64(&self, addr: u64) -> u64 {
        (0..8).fold(0u64, |acc, i| acc | (self.read_u8(addr + i) as u64) << (8 * i))
    }

    fn write_u64(&mut self, addr: u64, v: u64) {
        for i in 0..8 {
            self.write_u8(addr + i, (v >> (8 * i)) as u8);
        }
    }

    fn fetch(&mut self) -> u8 {
        let b = self.read_u8(self.rip);
        self.rip += 1;
        b
    }

    fn imm8(&mut self) -> i64 {
        self.fetch() as i8 as i64
    }

    fn imm32(&mut self) -> i64 {
        let v = (0..4).fold(0u32, |acc, i| acc | (self.fetch() as u32) << (8 * i));
        v as i32 as i64
    }

    fn push(&mut self, v: u64) {
        self.regs[RSP] -= 8;
        self.write_u64(self.regs[RSP], v);
    }

    fn pop(&mut self) -> u64 {
        let v = self.read_u64(self.regs[RSP]);
        self.regs[RSP] += 8;
        v
    }

    fn set_flags(&mut self, v: u64) {
        self.zf = v == 0;
        self.sf = (v as i64) < 0;
    }

    fn jump_if(&mut self, cond: bool) {
        let rel = self.imm8();
        if cond {
            self.rip = (self.rip as i64 + rel) as u64;
        }
    }

    /// Runs until the program exits; returns its exit status.
    fn run(&mut self) -> u64 {
        for _ in 0..1_000_000 {
            let op = self.fetch();
            match op {
                0x50..=0x57 => {
                    let v = self.regs[(op - 0x50) as usize];
                    self.push(v);
                },
                0x58..=0x5F => {
                    let v = self.pop();
                    self.regs[(op - 0x58) as usize] = v;
                },
                0x41 => match self.fetch() {
                    0x53 => {
                        let v = self.regs[R11];
                        self.push(v);
                    },
                    0x5B => {
                        let v = self.pop();
                        self.regs[R11] = v;
                    },
                    b => panic!("unknown 41 {b:#x}"),
                },
                0x68 => {
                    let v = self.imm32();
                    self.push(v as u64);
                },
                0x6A => {
                    let v = self.imm8();
                    self.push(v as u64);
                },
                0x79 => {
                    let c = !self.sf;
                    self.jump_if(c);
                },
                0x75 => {
                    let c = !self.zf;
                    self.jump_if(c);
                },
                0x74 => {
                    let c = self.zf;
                    self.jump_if(c);
                },
                0xEB => self.jump_if(true),
                0x31 => {
                    assert_eq!(self.fetch(), 0xFF);
                    self.regs[RDI] = 0;
                },
                0x0F => match self.fetch() {
                    0x05 => match self.regs[RAX] {
                        1 => {
                            assert_eq!(self.regs[RDI], 1);
                            let (buf, len) = (self.regs[RSI], self.regs[RDX]);
                            for i in 0..len {
                                let b = self.read_u8(buf + i);
                                self.out.push(b);
                            }
                            self.regs[RAX] = len;
                            self.regs[RCX] = 0xDEAD;
                            self.regs[R11] = 0xBEEF;
                        },
                        60 => return self.regs[RDI],
                        n => panic!("unknown syscall {n}"),
                    },
                    b => panic!("unknown 0f {b:#x}"),
                },
                0xFF => {
                    assert_eq!(self.fetch(), 0x75);
                    let d = self.imm8();
                    let v = self.read_u64((self.regs[RBP] as i64 + d) as u64);
                    self.push(v);
                },
                0xC6 => {
                    assert_eq!(self.fetch(), 0x07);
                    let v = self.fetch();
                    self.write_u8(self.regs[RDI], v);
                },
                0x88 => {
                    assert_eq!(self.fetch(), 0x17);
                    let v = self.regs[RDX] as u8;
                    self.write_u8(self.regs[RDI], v);
                },
                0x80 => {
                    assert_eq!(self.fetch(), 0xC2);
                    let v = self.fetch();
                    let dl = (self.regs[RDX] as u8).wrapping_add(v);
                    self.regs[RDX] = (self.regs[RDX] & !0xFF) | dl as u64;
                },
                0x84 => {
                    assert_eq!(self.fetch(), 0xC0);
                    let v = self.regs[RAX] & 0xFF;
                    self.zf = v == 0;
                    self.sf = v & 0x80 != 0;
                },
                0x48 => self.run_wide(),
                b => panic!("unknown opcode {b:#x} at {:#x}", self.rip - 1),
            }
        }
        panic!("the program did not exit")
    }

    fn run_wide(&mut self) {
        let op = self.fetch();
        match op {
            0x89 => match self.fetch() {
                0xE5 => self.regs[RBP] = self.regs[RSP],
                0x45 => {
                    let d = self.imm8();
                    let v = self.regs[RAX];
                    self.write_u64((self.regs[RBP] as i64 + d) as u64, v);
                },
                0x85 => {
                    let d = self.imm32();
                    let v = self.regs[RAX];
                    self.write_u64((self.regs[RBP] as i64 + d) as u64, v);
                },
                0xF2 => self.regs[RDX] = self.regs[RSI],
                0xFE => self.regs[RSI] = self.regs[RDI],
                b => panic!("unknown 48 89 {b:#x}"),
            },
            0x8B => {
                assert_eq!(self.fetch(), 0x85);
                let d = self.imm32();
                self.regs[RAX] = self.read_u64((self.regs[RBP] as i64 + d) as u64);
            },
            0x83 => {
                let m = self.fetch();
                let v = self.imm8() as u64;
                match m {
                    0xEC => self.regs[RSP] = self.regs[RSP].wrapping_sub(v),
                    0xC4 => self.regs[RSP] = self.regs[RSP].wrapping_add(v),
                    b => panic!("unknown 48 83 {b:#x}"),
                }
            },
            0x81 => {
                assert_eq!(self.fetch(), 0xEC);
                let v = self.imm32() as u64;
                self.regs[RSP] = self.regs[RSP].wrapping_sub(v);
            },
            0x01 => {
                assert_eq!(self.fetch(), 0xD8);
                self.regs[RAX] = self.regs[RAX].wrapping_add(self.regs[RBX]);
                self.set_flags(self.regs[RAX]);
            },
            0x29 => match self.fetch() {
                0xD8 => {
                    self.regs[RAX] = self.regs[RAX].wrapping_sub(self.regs[RBX]);
                    self.set_flags(self.regs[RAX]);
                },
                0xFA => {
                    self.regs[RDX] = self.regs[RDX].wrapping_sub(self.regs[RDI]);
                    self.set_flags(self.regs[RDX]);
                },
                b => panic!("unknown 48 29 {b:#x}"),
            },
            0x0F => {
                assert_eq!(self.fetch(), 0xAF);
                assert_eq!(self.fetch(), 0xC3);
                let p = (self.regs[RAX] as i64).wrapping_mul(self.regs[RBX] as i64);
                self.regs[RAX] = p as u64;
            },
            0x99 => {
                self.regs[RDX] = if (self.regs[RAX] as i64) < 0 { u64::MAX } else { 0 };
            },
            0xF7 => match self.fetch() {
                0xFB => {
                    let dividend = ((self.regs[RDX] as u128) << 64 | self.regs[RAX] as u128) as i128;
                    let divisor = self.regs[RBX] as i64 as i128;
                    assert!(divisor != 0, "division by zero");
                    self.regs[RAX] = (dividend / divisor) as i64 as u64;
                    self.regs[RDX] = (dividend % divisor) as i64 as u64;
                },
                0xF3 => {
                    let dividend = (self.regs[RDX] as u128) << 64 | self.regs[RAX] as u128;
                    let divisor = self.regs[RBX] as u128;
                    self.regs[RAX] = (dividend / divisor) as u64;
                    self.regs[RDX] = (dividend % divisor) as u64;
                },
                0xD8 => {
                    self.regs[RAX] = (self.regs[RAX] as i64).wrapping_neg() as u64;
                    self.set_flags(self.regs[RAX]);
                },
                b => panic!("unknown 48 f7 {b:#x}"),
            },
            0x8D => match self.fetch() {
                0x7C => {
                    assert_eq!(self.fetch(), 0x24);
                    let d = self.imm8();
                    self.regs[RDI] = (self.regs[RSP] as i64 + d) as u64;
                },
                0x74 => {
                    assert_eq!(self.fetch(), 0x24);
                    let d = self.imm8();
                    self.regs[RSI] = (self.regs[RSP] as i64 + d) as u64;
                },
                0x35 => {
                    let d = self.imm32();
                    self.regs[RSI] = (self.rip as i64 + d) as u64;
                },
                b => panic!("unknown 48 8d {b:#x}"),
            },
            0xFF => match self.fetch() {
                0xCF => {
                    self.regs[RDI] = self.regs[RDI].wrapping_sub(1);
                    self.set_flags(self.regs[RDI]);
                },
                0xC7 => {
                    self.regs[RDI] = self.regs[RDI].wrapping_add(1);
                    self.set_flags(self.regs[RDI]);
                },
                b => panic!("unknown 48 ff {b:#x}"),
            },
            0x85 => {
                assert_eq!(self.fetch(), 0xC0);
                self.set_flags(self.regs[RAX]);
            },
            0xC7 => {
                let r = match self.fetch() {
                    0xC0 => RAX,
                    0xC2 => RDX,
                    0xC3 => RBX,
                    0xC7 => RDI,
                    b => panic!("unknown 48 c7 {b:#x}"),
                };
                self.regs[r] = self.imm32() as u64;
            },
            0x31 => match self.fetch() {
                0xD2 => self.regs[RDX] = 0,
                0xFF => self.regs[RDI] = 0,
                b => panic!("unknown 48 31 {b:#x}"),
            },
            b => panic!("unknown 48 {b:#x}"),
        }
    }
}

/// Builds `code` as `main` with `n_locals` slots, runs the image, and returns what it
/// printed and the status it exited with.
fn run_main(code: Vec<Instr>, n_locals: usize) -> (String, u64) {
    let prog = ProgramIR {
        funcs: vec![Func { name: "main".to_string(), code, n_locals, locals_dbg: Vec::new() }],
    };
    let image = Compiler::new().compile_program(&prog).unwrap();
    let mut m = Machine::load(&image);
    let status = m.run();
    assert_eq!(m.regs[RSP], STACK_TOP - 8 - 8 * n_locals as u64 - 8 * final_depth(&prog));
    (String::from_utf8(m.out).unwrap(), status & 0xFF)
}

/// The operand-stack depth at the exiting `Ret` (its popped value included).
fn final_depth(prog: &ProgramIR) -> u64 {
    let mut depth: i64 = 0;
    for i in &prog.funcs[0].code {
        match i {
            Instr::PushI32(_) | Instr::Load(_) => depth += 1,
            Instr::Store(_) | Instr::Print => depth -= 1,
            Instr::Add | Instr::Sub | Instr::Mul | Instr::Div => depth -= 1,
            Instr::Pop => depth = (depth - 1).max(0),
            Instr::Ret => return (depth - 1).max(0) as u64,
        }
    }
    depth as u64
}

fn print_value(push: Vec<Instr>) -> String {
    let mut code = push;
    code.push(Instr::Print);
    code.push(Instr::PushI32(0));
    code.push(Instr::Ret);
    let (out, status) = run_main(code, 0);
    assert_eq!(status, 0);
    out
}

#[test]
fn print_of_a_local_then_return_zero() {
    // { i32 x = 10; print(x); return 0; }
    let code = vec![
        Instr::PushI32(10),
        Instr::Store(0),
        Instr::Load(0),
        Instr::Print,
        Instr::Pop,
        Instr::PushI32(0),
        Instr::Ret,
        Instr::Ret,
    ];
    assert_eq!(run_main(code, 1), ("10\n".to_string(), 0));
}

#[test]
fn return_seven_exits_with_seven() {
    assert_eq!(run_main(vec![Instr::PushI32(7), Instr::Ret], 0), (String::new(), 7));
}

#[test]
fn falling_off_the_end_exits_zero() {
    assert_eq!(run_main(vec![Instr::PushI32(7), Instr::Pop], 0), (String::new(), 0));
}

#[test]
fn return_with_empty_operand_stack_exits_zero() {
    assert_eq!(run_main(vec![Instr::Ret], 2), (String::new(), 0));
}

#[test]
fn print_zero() {
    assert_eq!(print_value(vec![Instr::PushI32(0)]), "0\n");
}

#[test]
fn print_minus_one() {
    assert_eq!(print_value(vec![Instr::PushI32(-1)]), "-1\n");
}

#[test]
fn print_largest_i32() {
    assert_eq!(print_value(vec![Instr::PushI32(i32::MAX)]), "2147483647\n");
}

#[test]
fn print_smallest_i32() {
    assert_eq!(print_value(vec![Instr::PushI32(i32::MIN)]), "-2147483648\n");
}

#[test]
fn print_smallest_i64() {
    // (-2^31) * (-2^31) * -2 = -2^63 in 64-bit registers.
    let push = vec![
        Instr::PushI32(i32::MIN),
        Instr::PushI32(i32::MIN),
        Instr::Mul,
        Instr::PushI32(-2),
        Instr::Mul,
    ];
    assert_eq!(print_value(push), "-9223372036854775808\n");
}

#[test]
fn print_positive_keeps_stack_balanced() {
    let code = vec![
        Instr::PushI32(5),
        Instr::PushI32(42),
        Instr::Print,
        Instr::PushI32(99),
        Instr::Print,
        Instr::Ret,
    ];
    assert_eq!(run_main(code, 0), ("42\n99\n".to_string(), 5));
}

#[test]
fn print_keeps_locals() {
    let code = vec![
        Instr::PushI32(3),
        Instr::Store(0),
        Instr::PushI32(4),
        Instr::Store(1),
        Instr::PushI32(123),
        Instr::Print,
        Instr::Load(0),
        Instr::Load(1),
        Instr::Add,
        Instr::Ret,
    ];
    assert_eq!(run_main(code, 2), ("123\n".to_string(), 7));
}

#[test]
fn division_truncates_toward_zero() {
    assert_eq!(print_value(vec![Instr::PushI32(10), Instr::PushI32(3), Instr::Div]), "3\n");
    assert_eq!(print_value(vec![Instr::PushI32(-7), Instr::PushI32(2), Instr::Div]), "-3\n");
}

#[test]
fn add_sub_mul_results() {
    assert_eq!(print_value(vec![Instr::PushI32(2), Instr::PushI32(3), Instr::Add]), "5\n");
    assert_eq!(print_value(vec![Instr::PushI32(2), Instr::PushI32(3), Instr::Sub]), "-1\n");
    assert_eq!(print_value(vec![Instr::PushI32(-4), Instr::PushI32(3), Instr::Mul]), "-12\n");
}

#[test]
fn far_slots_round_trip() {
    let code = vec![
        Instr::PushI32(77),
        Instr::Store(20),
        Instr::PushI32(5),
        Instr::Store(15),
        Instr::Load(20),
        Instr::Load(15),
        Instr::Sub,
        Instr::Ret,
    ];
    assert_eq!(run_main(code, 21), (String::new(), 72));
}

#[test]
fn greeting_image_writes_its_message() {
    let image = hello_image(b"Hello\n");
    let mut m = Machine::load(&image);
    assert_eq!(m.run(), 0);
    assert_eq!(m.out, b"Hello\n");
    let image = hello_image(b"another message\n");
    let mut m = Machine::load(&image);
    assert_eq!(m.run(), 0);
    assert_eq!(m.out, b"another message\n");
}

#[test]
fn greeting_image_patches_displacement_and_length() {
    let image = hello_image(b"Hi!");
    let code = &image[0x1000..];
    assert_eq!(&code[14..21], &[0x48, 0x8D, 0x35, 21, 0, 0, 0]);
    assert_eq!(&code[21..28], &[0x48, 0xC7, 0xC2, 3, 0, 0, 0]);
    assert_eq!(&code[42..], b"Hi!");
}

/// Compiles source text all the way to an image and runs it.
fn run_source(source: &str) -> (String, u64) {
    let tokens = Lexer::new(source).tokenize();
    let ast = Parser::new(tokens).parse_program().unwrap();
    let ir = Codegen::new().compile(&ast).unwrap();
    let image = Compiler::new().compile_program(&ir).unwrap();
    let mut m = Machine::load(&image);
    let status = m.run();
    (String::from_utf8(m.out).unwrap(), status & 0xFF)
}

#[test]
fn source_print_of_a_local_runs_natively() {
    let out = run_source("i32 main() { i32 x = 10; print(x); return 0; }");
    assert_eq!(out, ("10\n".to_string(), 0));
}

#[test]
fn source_return_seven_runs_natively() {
    assert_eq!(run_source("i32 main() { return 7; }"), (String::new(), 7));
}

#[test]
fn source_with_constants_and_structs_runs_natively() {
    let source = "struct P { i32 x; }; const i32 n = 5; i32 main() { print(n); const i32 m = n; print(m); }";
    assert_eq!(run_source(source), ("5\n5\n".to_string(), 0));
}

#[test]
fn print_restores_the_registers_it_uses() {
    let prog = ProgramIR {
        funcs: vec![Func {
            name: "main".to_string(),
            code: vec![Instr::PushI32(-120), Instr::Print, Instr::Ret],
            n_locals: 0,
            locals_dbg: Vec::new(),
        }],
    };
    let image = Compiler::new().compile_program(&prog).unwrap();
    let mut m = Machine::load(&image);
    assert_eq!(m.run(), 0);
    assert_eq!(m.out, b"-120\n");
    assert_eq!(m.regs[RBX], 0x3333);
    assert_eq!(m.regs[RCX], 0x2222);
    assert_eq!(m.regs[RDX], 0x4444);
    assert_eq!(m.regs[RSI], 0x5555);
    assert_eq!(m.regs[R11], 0x1111);
    assert_eq!(m.regs[RSP], STACK_TOP - 8);
}
