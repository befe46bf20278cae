use nativec::ast::{Expr, Stmt, TopDecl};
use nativec::codegen::{Codegen, CodegenError};
use nativec::elfgen::Compiler;
use nativec::ir::{Instr, ProgramIR};
use nativec::lexer::{Lexer, Token};
use nativec::parser::{ParseError, Parser};
use nativec::vm::{VM, VmError};

const SAMPLE: &str = "
    struct Point {
        i32 x;
        i32 y;
    };

    const i32 n = 5;

    i32 main() {
        i32 x = 10;
        print(x);
        print(n);
        return 0;
    }
";

fn ident(s: &str) -> Token {
    Token::Ident(s.to_string())
}

fn lower(source: &str) -> Result<ProgramIR, CodegenError> {
    let tokens = Lexer::new(source).tokenize();
    let program = Parser::new(tokens).parse_program().unwrap();
    Codegen::new().compile(&program)
}

#[test]
fn lexer_reads_keywords_symbols_names_and_numbers() {
    let tokens = Lexer::new("i32 main() { return 42; }").tokenize();
    assert_eq!(
        tokens,
        vec![
            Token::I32,
            ident("main"),
            Token::LParen,
            Token::RParen,
            Token::LBrace,
            Token::Return,
            Token::Number(42),
            Token::Semicolon,
            Token::RBrace,
            Token::EOF,
        ]
    );
}

#[test]
fn lexer_reads_every_keyword() {
    let tokens = Lexer::new("struct effect const if else while return print input perform i32 void")
        .tokenize();
    assert_eq!(
        tokens,
        vec![
            Token::Struct,
            Token::Effect,
            Token::Const,
            Token::If,
            Token::Else,
            Token::While,
            Token::Return,
            Token::Print,
            Token::Input,
            Token::Perform,
            Token::I32,
            Token::Void,
            Token::EOF,
        ]
    );
}

#[test]
fn lexer_reads_symbols() {
    let tokens = Lexer::new("{}()[],;:.=+-*/").tokenize();
    assert_eq!(
        tokens,
        vec![
            Token::LBrace,
            Token::RBrace,
            Token::LParen,
            Token::RParen,
            Token::LBracket,
            Token::RBracket,
            Token::Comma,
            Token::Semicolon,
            Token::Colon,
            Token::Dot,
            Token::Eq,
            Token::Plus,
            Token::Minus,
            Token::Star,
            Token::Slash,
            Token::EOF,
        ]
    );
}

#[test]
fn lexer_names_may_hold_digits_and_underscores() {
    let tokens = Lexer::new("_a1 b_2c\u{3000}x").tokenize();
    assert_eq!(tokens, vec![ident("_a1"), ident("b_2c"), ident("x"), Token::EOF]);
}

#[test]
fn lexer_stops_at_an_unknown_character() {
    let mut lexer = Lexer::new("x # y");
    assert_eq!(lexer.next_token(), ident("x"));
    assert_eq!(lexer.next_token(), Token::EOF);
    assert_eq!(lexer.next_token(), ident("y"));
    assert_eq!(Lexer::new("x # y").tokenize(), vec![ident("x"), Token::EOF]);
}

#[test]
fn lexer_number_limits() {
    assert_eq!(
        Lexer::new("9223372036854775807").tokenize(),
        vec![Token::Number(i64::MAX), Token::EOF]
    );
    assert_eq!(Lexer::new("9223372036854775808").tokenize(), vec![Token::EOF]);
    assert_eq!(Lexer::new("007").tokenize(), vec![Token::Number(7), Token::EOF]);
}

#[test]
fn lexer_empty_input() {
    assert_eq!(Lexer::new("").tokenize(), vec![Token::EOF]);
    assert_eq!(Lexer::new(" \n\t ").tokenize(), vec![Token::EOF]);
}

#[test]
fn parser_reads_the_sample_program() {
    let tokens = Lexer::new(SAMPLE).tokenize();
    let program = Parser::new(tokens).parse_program().unwrap();
    assert_eq!(program.decls.len(), 3);
    match &program.decls[0] {
        TopDecl::Struct(s) => {
            assert_eq!(s.name, "Point");
            assert_eq!(s.fields.len(), 2);
            assert_eq!(s.fields[1].name, "y");
            assert_eq!(s.fields[1].ty.name, "i32");
        },
        d => panic!("expected a struct, got {d:?}"),
    }
    match &program.decls[1] {
        TopDecl::Const(c) => {
            assert_eq!(c.name, "n");
            assert!(matches!(c.value, Expr::Number(5)));
        },
        d => panic!("expected a constant, got {d:?}"),
    }
    match &program.decls[2] {
        TopDecl::Func(f) => {
            assert_eq!(f.name, "main");
            assert_eq!(f.ret_type.name, "i32");
            assert_eq!(f.body.stmts.len(), 4);
            assert!(matches!(f.body.stmts[3], Stmt::Return(Some(Expr::Number(0)))));
        },
        d => panic!("expected a function, got {d:?}"),
    }
}

#[test]
fn parser_reads_parameters_with_a_trailing_comma() {
    let tokens = Lexer::new("i32 f(i32 a, Point b,) { return; }").tokenize();
    let program = Parser::new(tokens).parse_program().unwrap();
    match &program.decls[0] {
        TopDecl::Func(f) => {
            assert_eq!(f.params.len(), 2);
            assert_eq!(f.params[0].name, "a");
            assert_eq!(f.params[1].ty.name, "Point");
            assert!(matches!(f.body.stmts[0], Stmt::Return(None)));
        },
        d => panic!("expected a function, got {d:?}"),
    }
}

#[test]
fn parser_peek_past_the_end_is_eof() {
    let parser = Parser::new(vec![]);
    assert_eq!(parser.peek(), Token::EOF);
    let parser = Parser::new(vec![Token::Semicolon]);
    assert_eq!(parser.peek(), Token::Semicolon);
}

#[test]
fn parser_reports_a_missing_semicolon() {
    let tokens = Lexer::new("i32 main() { return 0 }").tokenize();
    match Parser::new(tokens).parse_program() {
        Err(ParseError::Expected { at, expected }) => {
            assert_eq!(at, 7);
            assert_eq!(expected, Token::Semicolon);
        },
        r => panic!("expected an error, got {r:?}"),
    }
}

#[test]
fn parser_reports_an_unexpected_declaration() {
    let tokens = Lexer::new("return 0;").tokenize();
    assert!(matches!(
        Parser::new(tokens).parse_program(),
        Err(ParseError::Unexpected { at: 0 })
    ));
}

#[test]
fn parser_reports_a_missing_name() {
    let tokens = Lexer::new("i32 () {}").tokenize();
    assert!(matches!(
        Parser::new(tokens).parse_program(),
        Err(ParseError::ExpectedName { at: 1 })
    ));
}

#[test]
fn parser_reports_a_bad_type() {
    let tokens = Lexer::new("struct S { 5 x; };").tokenize();
    assert!(matches!(
        Parser::new(tokens).parse_program(),
        Err(ParseError::ExpectedType { at: 3 })
    ));
}

#[test]
fn codegen_lowers_the_sample_program() {
    let ir = lower(SAMPLE).unwrap();
    assert_eq!(ir.funcs.len(), 1);
    let main = &ir.funcs[0];
    assert_eq!(main.name, "main");
    assert_eq!(main.n_locals, 1);
    assert_eq!(main.locals_dbg, vec!["x".to_string()]);
    assert_eq!(
        main.code,
        vec![
            Instr::PushI32(10),
            Instr::Store(0),
            Instr::Load(0),
            Instr::Print,
            Instr::Pop,
            Instr::PushI32(5),
            Instr::Print,
            Instr::Pop,
            Instr::PushI32(0),
            Instr::Ret,
            Instr::Ret,
        ]
    );
}

#[test]
fn codegen_shares_slots_between_parameters_and_variables() {
    let ir = lower("i32 f(i32 a, i32 b, i32 a) { i32 b; i32 c = a; const i32 b = 6; return c; }")
        .unwrap();
    let f = &ir.funcs[0];
    assert_eq!(f.n_locals, 3);
    assert_eq!(f.locals_dbg, vec!["a".to_string(), "b".to_string(), "c".to_string()]);
    assert_eq!(
        f.code,
        vec![
            Instr::PushI32(0),
            Instr::Store(1),
            Instr::Load(0),
            Instr::Store(2),
            Instr::PushI32(6),
            Instr::Store(1),
            Instr::Load(2),
            Instr::Ret,
            Instr::Ret,
        ]
    );
}

#[test]
fn codegen_later_constant_hides_earlier_and_locals_hide_constants() {
    let ir = lower("const i32 k = 1; const i32 k = 2; i32 main() { print(k); i32 k = 3; print(k); }")
        .unwrap();
    assert_eq!(
        ir.funcs[0].code,
        vec![
            Instr::PushI32(2),
            Instr::Print,
            Instr::Pop,
            Instr::PushI32(3),
            Instr::Store(0),
            Instr::Load(0),
            Instr::Print,
            Instr::Pop,
            Instr::Ret,
        ]
    );
}

#[test]
fn codegen_rejects_undeclared_names() {
    match lower("i32 main() { print(y); }") {
        Err(CodegenError::UndeclaredVariable(name)) => assert_eq!(name, "y"),
        r => panic!("expected an error, got {r:?}"),
    }
}

#[test]
fn codegen_rejects_assignment_to_undeclared_name() {
    let tokens = vec![
        Token::I32,
        ident("main"),
        Token::LParen,
        Token::RParen,
        Token::LBrace,
        Token::RBrace,
        Token::EOF,
    ];
    let mut program = Parser::new(tokens).parse_program().unwrap();
    if let TopDecl::Func(f) = &mut program.decls[0] {
        f.body.stmts.push(Stmt::Assign(nativec::ast::Assign {
            name: "z".to_string(),
            value: Expr::Number(1),
        }));
    }
    match Codegen::new().compile(&program) {
        Err(CodegenError::UndeclaredAssign(name)) => assert_eq!(name, "z"),
        r => panic!("expected an error, got {r:?}"),
    }
}

#[test]
fn codegen_rejects_control_flow_and_complex_expressions() {
    let mut program = Parser::new(Lexer::new("i32 main() { }").tokenize()).parse_program().unwrap();
    if let TopDecl::Func(f) = &mut program.decls[0] {
        f.body.stmts.push(Stmt::While(nativec::ast::WhileStmt {
            cond: Expr::Number(1),
            body: nativec::ast::Block { stmts: Vec::new() },
        }));
    }
    assert!(matches!(Codegen::new().compile(&program), Err(CodegenError::ControlFlow)));

    let mut program = Parser::new(Lexer::new("i32 main() { }").tokenize()).parse_program().unwrap();
    if let TopDecl::Func(f) = &mut program.decls[0] {
        f.body.stmts.push(Stmt::Expr(Expr::Binary {
            op: "+".to_string(),
            left: Box::new(Expr::Number(1)),
            right: Box::new(Expr::Number(2)),
        }));
    }
    assert!(matches!(Codegen::new().compile(&program), Err(CodegenError::ComplexExpr)));
}

#[test]
fn vm_runs_the_sample_program() {
    let ir = lower(SAMPLE).unwrap();
    let run = VM::run(&ir).unwrap();
    assert_eq!(run.printed, vec![10, 5]);
    assert_eq!(run.exit, 0);
}

#[test]
fn vm_divides_toward_zero() {
    let ir = lower("i32 main() { return 0; }").unwrap();
    let mut ir = ir;
    ir.funcs[0].code = vec![
        Instr::PushI32(10),
        Instr::PushI32(3),
        Instr::Div,
        Instr::Print,
        Instr::PushI32(-7),
        Instr::PushI32(2),
        Instr::Div,
        Instr::Ret,
    ];
    let run = VM::run(&ir).unwrap();
    assert_eq!(run.printed, vec![3]);
    assert_eq!(run.exit, -3);
}

#[test]
fn vm_errors() {
    let mut ir = lower("i32 main() { return 0; }").unwrap();
    ir.funcs[0].code = vec![Instr::PushI32(1), Instr::PushI32(0), Instr::Div];
    assert_eq!(VM::run(&ir).unwrap_err(), VmError::DivisionByZero { at: 2 });
    ir.funcs[0].code = vec![Instr::PushI32(i32::MAX), Instr::PushI32(1), Instr::Add];
    assert_eq!(VM::run(&ir).unwrap_err(), VmError::Overflow { at: 2 });
    ir.funcs[0].code = vec![Instr::Print];
    assert_eq!(VM::run(&ir).unwrap_err(), VmError::StackUnderflow { at: 0 });
    ir.funcs[0].code = vec![Instr::Load(3)];
    assert_eq!(VM::run(&ir).unwrap_err(), VmError::SlotOutOfRange { at: 0 });
    ir.funcs[0].name = "other".to_string();
    assert_eq!(VM::run(&ir).unwrap_err(), VmError::NoMain);
}

#[test]
fn vm_exit_defaults() {
    let mut ir = lower("i32 main() { return; }").unwrap();
    assert_eq!(VM::run(&ir).unwrap().exit, 0);
    ir.funcs[0].code = vec![Instr::Pop, Instr::PushI32(4)];
    assert_eq!(VM::run(&ir).unwrap().exit, 0);
}

#[test]
fn sample_program_compiles_to_an_image() {
    let ir = lower(SAMPLE).unwrap();
    let image = Compiler::new().compile_program(&ir).unwrap();
    assert_eq!(&image[..4], &[0x7F, b'E', b'L', b'F']);
    assert!(image.len() > 0x1000);
}
