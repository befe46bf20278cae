use nativec::elfgen::{CompileError, Compiler};
use nativec::image::build_image;
use nativec::ir::{Func, Instr, ProgramIR};

fn func(name: &str, code: Vec<Instr>, n_locals: usize) -> Func {
    Func { name: name.to_string(), code, n_locals, locals_dbg: Vec::new() }
}

fn program(code: Vec<Instr>, n_locals: usize) -> ProgramIR {
    ProgramIR { funcs: vec![func("main", code, n_locals)] }
}

fn build(prog: &ProgramIR) -> Result<Vec<u8>, CompileError> {
    Compiler::new().compile_program(prog)
}

fn segment(image: &[u8]) -> &[u8] {
    &image[0x1000..]
}

fn le64(b: &[u8]) -> u64 {
    u64::from_le_bytes(b.try_into().unwrap())
}

const EXIT_ZERO: [u8; 11] = [0x31, 0xFF, 0x48, 0xC7, 0xC0, 0x3C, 0, 0, 0, 0x0F, 0x05];
const EXIT_POPPED: [u8; 10] = [0x5F, 0x48, 0xC7, 0xC0, 0x3C, 0, 0, 0, 0x0F, 0x05];

#[test]
fn empty_main_is_prologue_and_exit() {
    let image = build(&program(vec![], 0)).unwrap();
    let mut expected = vec![0x55, 0x48, 0x89, 0xE5];
    expected.extend_from_slice(&EXIT_ZERO);
    assert_eq!(segment(&image), &expected[..]);
}

#[test]
fn prologue_reserves_eight_bytes_per_slot() {
    // 15 slots still fit an 8-bit immediate, 16 need a 32-bit one.
    let image = build(&program(vec![Instr::Ret], 15)).unwrap();
    assert_eq!(&segment(&image)[..8], &[0x55, 0x48, 0x89, 0xE5, 0x48, 0x83, 0xEC, 120]);
    let image = build(&program(vec![Instr::Ret], 16)).unwrap();
    assert_eq!(&segment(&image)[..11], &[0x55, 0x48, 0x89, 0xE5, 0x48, 0x81, 0xEC, 128, 0, 0, 0]);
    let image = build(&program(vec![Instr::Ret], 1000)).unwrap();
    assert_eq!(&segment(&image)[4..11], &[0x48, 0x81, 0xEC, 0x40, 0x1F, 0, 0]);
}

#[test]
fn slot_displacements_switch_width_past_128() {
    let code = vec![Instr::Load(15), Instr::Store(15), Instr::Load(16), Instr::Store(16), Instr::Ret];
    let image = build(&program(code, 17)).unwrap();
    let body = &segment(&image)[11..];
    let mut expected = vec![0xFF, 0x75, 0x80];
    expected.extend_from_slice(&[0x58, 0x48, 0x89, 0x45, 0x80]);
    expected.extend_from_slice(&[0x48, 0x8B, 0x85, 0x78, 0xFF, 0xFF, 0xFF, 0x50]);
    expected.extend_from_slice(&[0x58, 0x48, 0x89, 0x85, 0x78, 0xFF, 0xFF, 0xFF]);
    expected.extend_from_slice(&EXIT_ZERO);
    assert_eq!(body, &expected[..]);
}

#[test]
fn distinct_slots_get_distinct_displacements() {
    let mut seen = Vec::new();
    for idx in 0..40usize {
        let image = build(&program(vec![Instr::Load(idx), Instr::Ret], 40)).unwrap();
        let body = segment(&image)[11..].to_vec();
        assert!(!seen.contains(&body));
        seen.push(body);
    }
}

#[test]
fn push_encodes_sign_extended_immediate() {
    let image = build(&program(vec![Instr::PushI32(-2), Instr::Ret], 0)).unwrap();
    let body = &segment(&image)[4..];
    let mut expected = vec![0x68, 0xFE, 0xFF, 0xFF, 0xFF];
    expected.extend_from_slice(&EXIT_POPPED);
    assert_eq!(body, &expected[..]);
}

#[test]
fn arithmetic_lowerings() {
    let code = vec![
        Instr::PushI32(10),
        Instr::PushI32(3),
        Instr::Add,
        Instr::PushI32(3),
        Instr::Sub,
        Instr::PushI32(3),
        Instr::Mul,
        Instr::PushI32(3),
        Instr::Div,
        Instr::Ret,
    ];
    let image = build(&program(code, 0)).unwrap();
    let body = &segment(&image)[4..];
    let push = |v: u8| vec![0x68, v, 0, 0, 0];
    let mut expected = push(10);
    expected.extend(push(3));
    expected.extend_from_slice(&[0x5B, 0x58, 0x48, 0x01, 0xD8, 0x50]);
    expected.extend(push(3));
    expected.extend_from_slice(&[0x5B, 0x58, 0x48, 0x29, 0xD8, 0x50]);
    expected.extend(push(3));
    expected.extend_from_slice(&[0x5B, 0x58, 0x48, 0x0F, 0xAF, 0xC3, 0x50]);
    expected.extend(push(3));
    expected.extend_from_slice(&[0x5B, 0x58, 0x48, 0x99, 0x48, 0xF7, 0xFB, 0x50]);
    expected.extend_from_slice(&EXIT_POPPED);
    assert_eq!(body, &expected[..]);
}

#[test]
fn pop_of_empty_operand_stack_emits_nothing() {
    let image = build(&program(vec![Instr::Pop, Instr::PushI32(1), Instr::Pop], 0)).unwrap();
    let body = &segment(&image)[4..];
    let mut expected = vec![0x68, 1, 0, 0, 0, 0x48, 0x83, 0xC4, 0x08];
    expected.extend_from_slice(&EXIT_ZERO);
    assert_eq!(body, &expected[..]);
}

#[test]
fn return_on_empty_operand_stack_exits_zero() {
    let image = build(&program(vec![Instr::Ret], 0)).unwrap();
    let mut expected = vec![0x55, 0x48, 0x89, 0xE5];
    expected.extend_from_slice(&EXIT_ZERO);
    assert_eq!(segment(&image), &expected[..]);
}

#[test]
fn return_seven_exits_with_popped_status() {
    let image = build(&program(vec![Instr::PushI32(7), Instr::Ret], 0)).unwrap();
    let mut expected = vec![0x55, 0x48, 0x89, 0xE5, 0x68, 7, 0, 0, 0];
    expected.extend_from_slice(&EXIT_POPPED);
    assert_eq!(segment(&image), &expected[..]);
}

#[test]
fn missing_main_is_rejected() {
    let prog = ProgramIR { funcs: vec![func("helper", vec![Instr::Ret], 0)] };
    assert_eq!(build(&prog), Err(CompileError::NoMain));
    assert_eq!(build(&ProgramIR { funcs: vec![] }), Err(CompileError::NoMain));
}

#[test]
fn main_is_found_by_name() {
    let prog = ProgramIR {
        funcs: vec![
            func("helper", vec![Instr::PushI32(1), Instr::Ret], 0),
            func("main", vec![Instr::PushI32(2), Instr::Ret], 0),
        ],
    };
    assert_eq!(prog.main_index(), Some(1));
    let image = build(&prog).unwrap();
    assert_eq!(&segment(&image)[4..9], &[0x68, 2, 0, 0, 0]);
}

#[test]
fn out_of_range_slot_is_rejected() {
    let prog = program(vec![Instr::PushI32(1), Instr::Store(1), Instr::Ret], 1);
    assert_eq!(build(&prog), Err(CompileError::SlotOutOfRange { at: 1, index: 1, n_locals: 1 }));
    let prog = program(vec![Instr::Load(0), Instr::Ret], 0);
    assert_eq!(build(&prog), Err(CompileError::SlotOutOfRange { at: 0, index: 0, n_locals: 0 }));
}

#[test]
fn operand_underflow_is_rejected() {
    let prog = program(vec![Instr::PushI32(1), Instr::Add, Instr::Ret], 0);
    assert_eq!(build(&prog), Err(CompileError::StackUnderflow { at: 1 }));
    let prog = program(vec![Instr::Print], 0);
    assert_eq!(build(&prog), Err(CompileError::StackUnderflow { at: 0 }));
}

#[test]
fn oversized_frame_is_rejected() {
    let prog = program(vec![Instr::Ret], 0x1000_0000);
    assert_eq!(build(&prog), Err(CompileError::FrameTooLarge { n_locals: 0x1000_0000 }));
}

#[test]
fn image_starts_with_magic_and_declares_exact_segment_size() {
    let prog = program(vec![Instr::PushI32(10), Instr::Print, Instr::PushI32(0), Instr::Ret], 0);
    let image = build(&prog).unwrap();
    assert_eq!(&image[..4], &[0x7F, b'E', b'L', b'F']);
    assert_eq!(&image[4..8], &[2, 1, 1, 0]);
    let code_len = (image.len() - 0x1000) as u64;
    assert_eq!(le64(&image[24..32]), 0x401000);
    assert_eq!(le64(&image[0x60..0x68]), code_len);
    assert_eq!(le64(&image[0x68..0x70]), code_len);
    assert_eq!(le64(&image[0x48..0x50]), 0x1000);
    assert_eq!(le64(&image[0x50..0x58]), 0x401000);
    assert_eq!(le64(&image[0x70..0x78]), 0x1000);
    assert!(image[0x78..0x1000].iter().all(|b| *b == 0));
}

#[test]
fn segment_holds_code_then_data() {
    let image = build_image(&vec![1, 2, 3], &vec![4, 5]);
    assert_eq!(image.len(), 0x1000 + 5);
    assert_eq!(le64(&image[0x60..0x68]), 5);
    assert_eq!(&image[0x1000..], &[1, 2, 3, 4, 5]);
}

#[test]
fn building_twice_gives_identical_bytes() {
    let prog = program(
        vec![Instr::PushI32(10), Instr::Store(0), Instr::Load(0), Instr::Print, Instr::Ret],
        1,
    );
    let mut compiler = Compiler::new();
    let first = compiler.compile_program(&prog).unwrap();
    let second = compiler.compile_program(&prog).unwrap();
    let third = Compiler::new().compile_program(&prog.clone()).unwrap();
    assert_eq!(first, second);
    assert_eq!(first, third);
}
