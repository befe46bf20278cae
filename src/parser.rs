use vstd::prelude::*;

use crate::ast::{
    Block, Builtin, ConstDecl, Expr, Field, FuncDef, Param, Program, Stmt, StructDecl, TopDecl,
    Type, VarDecl,
};
use crate::lexer::{Token, copy_token, same_token};

verus! {

/// Why a token sequence is not a program.
#[derive(Debug, Clone)]
pub enum ParseError {
    /// The token at `at` is not the `expected` one.
    Expected { at: usize, expected: Token },
    /// The token at `at` should be a name.
    ExpectedName { at: usize },
    /// The token at `at` should be a type.
    ExpectedType { at: usize },
    /// The token at `at` starts no declaration or expression.
    Unexpected { at: usize },
}

// ---------------------------------------------------------------------------
// Nodes written back as tokens

pub open spec fn i32_name() -> Seq<char> {
    seq!['i', '3', '2']
}

pub open spec fn type_token(t: Type) -> Token {
    if t.name@ == i32_name() {
        Token::I32
    } else {
        Token::Ident(t.name)
    }
}

pub open spec fn expr_tokens(e: Expr) -> Seq<Token>
    decreases e,
{
    match e {
        Expr::Number(n) => seq![Token::Number(n)],
        Expr::Ident(id) => seq![Token::Ident(id)],
        Expr::Builtin(Builtin::Print(a)) => seq![Token::Print, Token::LParen] + expr_tokens(*a)
            + seq![Token::RParen],
        _ => Seq::empty(),
    }
}

pub open spec fn const_tokens(c: ConstDecl) -> Seq<Token> {
    seq![Token::Const, type_token(c.ty), Token::Ident(c.name), Token::Eq] + expr_tokens(c.value)
        + seq![Token::Semicolon]
}

pub open spec fn stmt_tokens(s: Stmt) -> Seq<Token> {
    match s {
        Stmt::ConstDecl(c) => const_tokens(c),
        Stmt::Return(opt) => match opt {
            Some(e) => seq![Token::Return] + expr_tokens(e) + seq![Token::Semicolon],
            None => seq![Token::Return, Token::Semicolon],
        },
        Stmt::VarDecl(v) => seq![type_token(v.ty), Token::Ident(v.name)] + match v.value {
            Some(e) => seq![Token::Eq] + expr_tokens(e),
            None => Seq::empty(),
        } + seq![Token::Semicolon],
        Stmt::Expr(e) => expr_tokens(e) + seq![Token::Semicolon],
        _ => Seq::empty(),
    }
}

pub open spec fn stmts_tokens(ss: Seq<Stmt>, k: nat) -> Seq<Token>
    decreases k,
{
    if k == 0 || k > ss.len() {
        Seq::empty()
    } else {
        stmts_tokens(ss, (k - 1) as nat) + stmt_tokens(ss[k - 1])
    }
}

pub open spec fn block_tokens(b: Block) -> Seq<Token> {
    seq![Token::LBrace] + stmts_tokens(b.stmts@, b.stmts@.len()) + seq![Token::RBrace]
}

pub open spec fn param_tokens(p: Param) -> Seq<Token> {
    seq![type_token(p.ty), Token::Ident(p.name)]
}

/// The first `k` parameters, separated by commas.
pub open spec fn params_tokens(ps: Seq<Param>, k: nat) -> Seq<Token>
    decreases k,
{
    if k == 0 || k > ps.len() {
        Seq::empty()
    } else if k == 1 {
        param_tokens(ps[0])
    } else {
        params_tokens(ps, (k - 1) as nat) + seq![Token::Comma] + param_tokens(ps[k - 1])
    }
}

/// `ts` lists the parameters `ps`, with or without a comma after the last.
pub open spec fn renders_params(ps: Seq<Param>, ts: Seq<Token>) -> bool {
    ||| ts == params_tokens(ps, ps.len())
    ||| (ps.len() > 0 && ts == params_tokens(ps, ps.len()) + seq![Token::Comma])
}

pub open spec fn field_tokens(f: Field) -> Seq<Token> {
    seq![type_token(f.ty), Token::Ident(f.name), Token::Semicolon]
}

pub open spec fn fields_tokens(fs: Seq<Field>, k: nat) -> Seq<Token>
    decreases k,
{
    if k == 0 || k > fs.len() {
        Seq::empty()
    } else {
        fields_tokens(fs, (k - 1) as nat) + field_tokens(fs[k - 1])
    }
}

pub open spec fn struct_tokens(s: StructDecl) -> Seq<Token> {
    seq![Token::Struct, Token::Ident(s.name), Token::LBrace] + fields_tokens(
        s.fields@,
        s.fields@.len(),
    ) + seq![Token::RBrace, Token::Semicolon]
}

/// `ts` is the function `f`: return type, name, parameters in parentheses, body.
pub open spec fn renders_func(f: FuncDef, ts: Seq<Token>) -> bool {
    let body = block_tokens(f.body);
    let n = ts.len() as int;
    let close = n - 1 - body.len();
    &&& close >= 3
    &&& ts.subrange(0, 3) == seq![type_token(f.ret_type), Token::Ident(f.name), Token::LParen]
    &&& renders_params(f.params@, ts.subrange(3, close))
    &&& ts[close] == Token::RParen
    &&& ts.subrange(close + 1, n) == body
}

pub open spec fn renders_top(d: TopDecl, ts: Seq<Token>) -> bool {
    match d {
        TopDecl::Struct(s) => ts == struct_tokens(s),
        TopDecl::Const(c) => ts == const_tokens(c),
        TopDecl::Func(f) => renders_func(f, ts),
        _ => false,
    }
}

/// `ts` is the declarations `ds`, one after another.
pub open spec fn renders_decls(ds: Seq<TopDecl>, ts: Seq<Token>) -> bool
    decreases ds.len(),
{
    if ds.len() == 0 {
        ts.len() == 0
    } else {
        exists|k: int|
            0 <= k <= ts.len() && renders_decls(ds.drop_last(), #[trigger] ts.subrange(0, k))
                && renders_top(ds.last(), ts.subrange(k, ts.len() as int))
    }
}

// ---------------------------------------------------------------------------
// What the parser accepts

/// The expressions the parser reads: numbers, names, and `print` of such an expression.
pub open spec fn simple_expr(e: Expr) -> bool
    decreases e,
{
    match e {
        Expr::Number(_) | Expr::Ident(_) => true,
        Expr::Builtin(Builtin::Print(a)) => simple_expr(*a),
        _ => false,
    }
}

/// The statements the parser reads. An expression statement may not start with a name,
/// which would be read as the type of a declaration.
pub open spec fn simple_stmt(s: Stmt) -> bool {
    match s {
        Stmt::ConstDecl(c) => simple_expr(c.value),
        Stmt::Return(opt) => match opt {
            Some(e) => simple_expr(e),
            None => true,
        },
        Stmt::VarDecl(v) => match v.value {
            Some(e) => simple_expr(e),
            None => true,
        },
        Stmt::Expr(e) => simple_expr(e) && !(e is Ident),
        _ => false,
    }
}

pub open spec fn simple_block(b: Block) -> bool {
    forall|i: int| 0 <= i < b.stmts@.len() ==> simple_stmt(#[trigger] b.stmts@[i])
}

/// A function written with no comma after its last parameter.
pub open spec fn func_tokens(f: FuncDef) -> Seq<Token> {
    seq![type_token(f.ret_type), Token::Ident(f.name), Token::LParen] + params_tokens(
        f.params@,
        f.params@.len(),
    ) + seq![Token::RParen] + block_tokens(f.body)
}

pub open spec fn simple_top(d: TopDecl) -> bool {
    match d {
        TopDecl::Struct(_) => true,
        TopDecl::Const(c) => simple_expr(c.value),
        TopDecl::Func(f) => simple_block(f.body),
        _ => false,
    }
}

pub open spec fn top_tokens(d: TopDecl) -> Seq<Token> {
    match d {
        TopDecl::Struct(s) => struct_tokens(s),
        TopDecl::Const(c) => const_tokens(c),
        TopDecl::Func(f) => func_tokens(f),
        _ => Seq::empty(),
    }
}

pub open spec fn decls_tokens(ds: Seq<TopDecl>, k: nat) -> Seq<Token>
    decreases k,
{
    if k == 0 || k > ds.len() {
        Seq::empty()
    } else {
        decls_tokens(ds, (k - 1) as nat) + top_tokens(ds[k - 1])
    }
}

/// `prefix` stands in `ts` from `pos` on.
pub open spec fn starts_with(ts: Seq<Token>, pos: nat, prefix: Seq<Token>) -> bool {
    pos + prefix.len() <= ts.len() && ts.subrange(pos as int, (pos + prefix.len()) as int) == prefix
}

/// The token at `p`; `EOF` past the end.
pub open spec fn token_at(ts: Seq<Token>, p: nat) -> Token {
    if p < ts.len() {
        ts[p as int]
    } else {
        Token::EOF
    }
}

/// From `pos` on, `ts` holds the declarations `ds`, all of forms the parser reads, and then
/// its end or `EOF`.
pub open spec fn holds_program(ts: Seq<Token>, pos: nat, ds: Seq<TopDecl>) -> bool {
    let body = decls_tokens(ds, ds.len());
    &&& forall|i: int| 0 <= i < ds.len() ==> simple_top(#[trigger] ds[i])
    &&& starts_with(ts, pos, body)
    &&& token_at(ts, pos + body.len()) is EOF
}

pub proof fn lemma_starts_with_concat(ts: Seq<Token>, pos: nat, a: Seq<Token>, b: Seq<Token>)
    requires
        starts_with(ts, pos, a + b),
    ensures
        starts_with(ts, pos, a),
        starts_with(ts, pos + a.len(), b),
{
    let w = ts.subrange(pos as int, (pos + a.len() + b.len()) as int);
    assert(w == a + b);
    assert(ts.subrange(pos as int, (pos + a.len()) as int) =~= w.subrange(0, a.len() as int));
    assert(w.subrange(0, a.len() as int) =~= a);
    assert(ts.subrange((pos + a.len()) as int, (pos + a.len() + b.len()) as int) =~= w.subrange(
        a.len() as int,
        w.len() as int,
    ));
    assert(w.subrange(a.len() as int, w.len() as int) =~= b);
}

pub proof fn lemma_starts_with_first(ts: Seq<Token>, pos: nat, a: Seq<Token>)
    requires
        starts_with(ts, pos, a),
        a.len() > 0,
    ensures
        token_at(ts, pos) == a[0],
{
    lemma_starts_with_index(ts, pos, a, 0);
}

pub proof fn lemma_starts_with_prefix(ts: Seq<Token>, pos: nat, a: Seq<Token>, k: nat)
    requires
        starts_with(ts, pos, a),
        k <= a.len(),
    ensures
        starts_with(ts, pos, a.subrange(0, k as int)),
{
    assert(ts.subrange(pos as int, (pos + k) as int) =~= ts.subrange(
        pos as int,
        (pos + a.len()) as int,
    ).subrange(0, k as int));
}

pub proof fn lemma_stmts_grow(ss: Seq<Stmt>, i: nat, n: nat)
    requires
        i <= n <= ss.len(),
    ensures
        stmts_tokens(ss, i).len() <= stmts_tokens(ss, n).len(),
        stmts_tokens(ss, n).subrange(0, stmts_tokens(ss, i).len() as int) == stmts_tokens(ss, i),
    decreases n - i,
{
    if i < n {
        lemma_stmts_grow(ss, i, (n - 1) as nat);
        assert(stmts_tokens(ss, n).subrange(0, stmts_tokens(ss, i).len() as int) =~= stmts_tokens(
            ss,
            (n - 1) as nat,
        ).subrange(0, stmts_tokens(ss, i).len() as int));
    } else {
        assert(stmts_tokens(ss, n).subrange(0, stmts_tokens(ss, n).len() as int) =~= stmts_tokens(
            ss,
            n,
        ));
    }
}

/// Where the statements `ss` stand, statement `i` stands after the first `i`.
pub proof fn lemma_stmt_at(ts: Seq<Token>, p: nat, ss: Seq<Stmt>, i: nat)
    requires
        i < ss.len(),
        starts_with(ts, p, stmts_tokens(ss, ss.len())),
    ensures
        starts_with(ts, p + stmts_tokens(ss, i).len(), stmt_tokens(ss[i as int])),
{
    lemma_stmts_grow(ss, i + 1, ss.len());
    lemma_starts_with_prefix(ts, p, stmts_tokens(ss, ss.len()), stmts_tokens(ss, i + 1).len());
    lemma_starts_with_concat(ts, p, stmts_tokens(ss, i), stmt_tokens(ss[i as int]));
}

pub proof fn lemma_fields_grow(fs: Seq<Field>, i: nat, n: nat)
    requires
        i <= n <= fs.len(),
    ensures
        fields_tokens(fs, i).len() <= fields_tokens(fs, n).len(),
        fields_tokens(fs, n).subrange(0, fields_tokens(fs, i).len() as int) == fields_tokens(fs, i),
    decreases n - i,
{
    if i < n {
        lemma_fields_grow(fs, i, (n - 1) as nat);
        assert(fields_tokens(fs, n).subrange(0, fields_tokens(fs, i).len() as int)
            =~= fields_tokens(fs, (n - 1) as nat).subrange(0, fields_tokens(fs, i).len() as int));
    } else {
        assert(fields_tokens(fs, n).subrange(0, fields_tokens(fs, n).len() as int)
            =~= fields_tokens(fs, n));
    }
}

/// Where the fields `fs` stand, field `i` stands after the first `i`.
pub proof fn lemma_field_at(ts: Seq<Token>, p: nat, fs: Seq<Field>, i: nat)
    requires
        i < fs.len(),
        starts_with(ts, p, fields_tokens(fs, fs.len())),
    ensures
        starts_with(ts, p + fields_tokens(fs, i).len(), field_tokens(fs[i as int])),
{
    lemma_fields_grow(fs, i + 1, fs.len());
    lemma_starts_with_prefix(ts, p, fields_tokens(fs, fs.len()), fields_tokens(fs, i + 1).len());
    lemma_starts_with_concat(ts, p, fields_tokens(fs, i), field_tokens(fs[i as int]));
}

/// The tokens of a statement the parser reads neither close a block nor end the input.
pub proof fn lemma_stmt_first(s: Stmt)
    requires
        simple_stmt(s),
    ensures
        stmt_tokens(s).len() > 0,
        !(stmt_tokens(s)[0] is RBrace),
        !(stmt_tokens(s)[0] is EOF),
{
    match s {
        Stmt::Expr(e) => lemma_expr_first(e),
        Stmt::Return(Some(e)) => lemma_expr_first(e),
        _ => {},
    }
}

pub proof fn lemma_params_grow(ps: Seq<Param>, i: nat, n: nat)
    requires
        i <= n <= ps.len(),
    ensures
        params_tokens(ps, i).len() <= params_tokens(ps, n).len(),
        params_tokens(ps, n).subrange(0, params_tokens(ps, i).len() as int) == params_tokens(ps, i),
    decreases n - i,
{
    if i < n {
        lemma_params_grow(ps, i, (n - 1) as nat);
        assert(params_tokens(ps, n).subrange(0, params_tokens(ps, i).len() as int)
            =~= params_tokens(ps, (n - 1) as nat).subrange(0, params_tokens(ps, i).len() as int));
    } else {
        assert(params_tokens(ps, n).subrange(0, params_tokens(ps, n).len() as int)
            =~= params_tokens(ps, n));
    }
}

/// Where the parameters `ps` stand, parameter `i` stands after the first `i` and, past
/// the first, a comma.
pub proof fn lemma_param_at(ts: Seq<Token>, p: nat, ps: Seq<Param>, i: nat)
    requires
        i < ps.len(),
        starts_with(ts, p, params_tokens(ps, ps.len())),
    ensures
        i == 0 ==> starts_with(ts, p, param_tokens(ps[0])),
        i > 0 ==> token_at(ts, p + params_tokens(ps, i).len()) is Comma,
        i > 0 ==> starts_with(ts, p + params_tokens(ps, i).len() + 1, param_tokens(ps[i as int])),
        params_tokens(ps, i + 1).len() == params_tokens(ps, i).len() + if i == 0 {
            2nat
        } else {
            3nat
        },
{
    lemma_params_grow(ps, i + 1, ps.len());
    lemma_starts_with_prefix(ts, p, params_tokens(ps, ps.len()), params_tokens(ps, i + 1).len());
    if i > 0 {
        let front = params_tokens(ps, i) + seq![Token::Comma];
        lemma_starts_with_concat(ts, p, front, param_tokens(ps[i as int]));
        lemma_starts_with_concat(ts, p, params_tokens(ps, i), seq![Token::Comma]);
        lemma_starts_with_first(ts, p + params_tokens(ps, i).len(), seq![Token::Comma]);
    }
}

pub proof fn lemma_decls_grow(ds: Seq<TopDecl>, i: nat, n: nat)
    requires
        i <= n <= ds.len(),
    ensures
        decls_tokens(ds, i).len() <= decls_tokens(ds, n).len(),
        decls_tokens(ds, n).subrange(0, decls_tokens(ds, i).len() as int) == decls_tokens(ds, i),
    decreases n - i,
{
    if i < n {
        lemma_decls_grow(ds, i, (n - 1) as nat);
        assert(decls_tokens(ds, n).subrange(0, decls_tokens(ds, i).len() as int) =~= decls_tokens(
            ds,
            (n - 1) as nat,
        ).subrange(0, decls_tokens(ds, i).len() as int));
    } else {
        assert(decls_tokens(ds, n).subrange(0, decls_tokens(ds, n).len() as int) =~= decls_tokens(
            ds,
            n,
        ));
    }
}

/// Where the declarations `ds` stand, declaration `i` stands after the first `i`.
pub proof fn lemma_decl_at(ts: Seq<Token>, p: nat, ds: Seq<TopDecl>, i: nat)
    requires
        i < ds.len(),
        starts_with(ts, p, decls_tokens(ds, ds.len())),
    ensures
        starts_with(ts, p + decls_tokens(ds, i).len(), top_tokens(ds[i as int])),
{
    lemma_decls_grow(ds, i + 1, ds.len());
    lemma_starts_with_prefix(ts, p, decls_tokens(ds, ds.len()), decls_tokens(ds, i + 1).len());
    lemma_starts_with_concat(ts, p, decls_tokens(ds, i), top_tokens(ds[i as int]));
}

/// The tokens of a declaration the parser reads start with `struct`, `const` or a type.
pub proof fn lemma_top_first(d: TopDecl)
    requires
        simple_top(d),
    ensures
        top_tokens(d).len() > 0,
        top_tokens(d)[0] is Struct || top_tokens(d)[0] is Const || top_tokens(d)[0] is I32
            || top_tokens(d)[0] is Ident,
{
}

/// Where a function stands, its parts stand one after another.
pub proof fn lemma_func_parts(ts: Seq<Token>, p: nat, f: FuncDef)
    requires
        starts_with(ts, p, func_tokens(f)),
    ensures
        token_at(ts, p) == type_token(f.ret_type),
        token_at(ts, p + 1) == Token::Ident(f.name),
        token_at(ts, p + 2) == Token::LParen,
        starts_with(
            ts,
            p + 3,
            params_tokens(f.params@, f.params@.len()) + seq![Token::RParen],
        ),
        token_at(ts, p + 3 + params_tokens(f.params@, f.params@.len()).len()) == Token::RParen,
        starts_with(
            ts,
            p + 4 + params_tokens(f.params@, f.params@.len()).len(),
            block_tokens(f.body),
        ),
{
    let head = seq![type_token(f.ret_type), Token::Ident(f.name), Token::LParen];
    let ps = params_tokens(f.params@, f.params@.len());
    let close = seq![Token::RParen];
    assert(func_tokens(f) =~= head + (ps + close) + block_tokens(f.body));
    lemma_starts_with_concat(ts, p, head + (ps + close), block_tokens(f.body));
    lemma_starts_with_concat(ts, p, head, ps + close);
    lemma_starts_with_index(ts, p, head, 0);
    lemma_starts_with_index(ts, p, head, 1);
    lemma_starts_with_index(ts, p, head, 2);
    lemma_starts_with_concat(ts, p + 3, ps, close);
    lemma_starts_with_first(ts, p + 3 + ps.len(), close);
}

/// The tokens of an expression the parser reads start with a number, a name or `print`.
pub proof fn lemma_expr_first(e: Expr)
    requires
        simple_expr(e),
    ensures
        expr_tokens(e).len() > 0,
        expr_tokens(e)[0] is Number || expr_tokens(e)[0] is Ident || expr_tokens(e)[0] is Print,
{
}

pub proof fn lemma_starts_with_index(ts: Seq<Token>, pos: nat, a: Seq<Token>, i: nat)
    requires
        starts_with(ts, pos, a),
        i < a.len(),
    ensures
        token_at(ts, pos + i) == a[i as int],
{
    assert(ts.subrange(pos as int, (pos + a.len()) as int)[i as int] == a[i as int]);
}

// ---------------------------------------------------------------------------
// The parser

/// Builds the syntax tree of a token sequence by recursive descent.
///
/// Each private parsing method may take a ghost `hint`: a node whose tokens stand at the
/// current position. Given one, the method succeeds and consumes exactly those tokens.
pub struct Parser {
    tokens: Vec<Token>,
    pos: usize,
}

impl Parser {
    /// The tokens being parsed.
    pub closed spec fn input(&self) -> Seq<Token> {
        self.tokens@
    }

    /// How many tokens have been consumed.
    pub closed spec fn position(&self) -> nat {
        self.pos as nat
    }

    pub closed spec fn wf(&self) -> bool {
        self.pos <= self.tokens@.len()
    }

    /// The tokens consumed between two states.
    pub open spec fn consumed(before: &Parser, after: &Parser) -> Seq<Token> {
        before.input().subrange(before.position() as int, after.position() as int)
    }

    /// The next token; `EOF` past the end.
    pub open spec fn current(&self) -> Token {
        if self.position() < self.input().len() {
            self.input()[self.position() as int]
        } else {
            Token::EOF
        }
    }

    pub fn new(tokens: Vec<Token>) -> (r: Parser)
        ensures
            r.wf(),
            r.input() == tokens@,
            r.position() == 0,
    {
        Parser { tokens, pos: 0 }
    }

    /// The next token, without consuming it.
    pub fn peek(&self) -> (r: Token)
        requires
            self.wf(),
        ensures
            r == self.current(),
    {
        if self.pos < self.tokens.len() {
            copy_token(&self.tokens[self.pos])
        } else {
            Token::EOF
        }
    }

    fn at_eof(&self) -> (r: bool)
        requires
            self.wf(),
        ensures
            r == (self.current() is EOF),
    {
        self.pos >= self.tokens.len() || matches!(self.tokens[self.pos], Token::EOF)
    }

    fn at(&self, t: &Token) -> (r: bool)
        requires
            self.wf(),
        ensures
            r == same_token(self.current(), *t),
    {
        if self.pos < self.tokens.len() {
            self.tokens[self.pos] == *t
        } else {
            matches!(t, Token::EOF)
        }
    }

    /// Consumes and returns the next token; past the end, `EOF` without consuming.
    fn next(&mut self) -> (r: Token)
        requires
            old(self).wf(),
        ensures
            final(self).wf(),
            final(self).input() == old(self).input(),
            r == old(self).current(),
            final(self).position() == if old(self).position() < old(self).input().len() {
                old(self).position() + 1
            } else {
                old(self).position()
            },
    {
        let tok = self.peek();
        if self.pos < self.tokens.len() {
            self.pos += 1;
        }
        tok
    }

    /// Consumes the next token if it is `expected`.
    fn expect(&mut self, expected: &Token) -> (r: Result<(), ParseError>)
        requires
            old(self).wf(),
            !(expected is Ident),
            !(expected is Number),
            !(expected is EOF),
        ensures
            final(self).wf(),
            final(self).input() == old(self).input(),
            r is Ok <==> old(self).current() == *expected,
            r is Ok ==> final(self).position() == old(self).position() + 1,
    {
        let at = self.pos;
        let got = self.next();
        if got != *expected {
            return Err(ParseError::Expected { at, expected: copy_token(expected) });
        }
        Ok(())
    }

    /// Parses declarations up to the first `EOF`. It succeeds on every input that holds,
    /// from the position on, declarations of the forms it reads and then `EOF`.
    pub fn parse_program(&mut self) -> (r: Result<Program, ParseError>)
        requires
            old(self).wf(),
        ensures
            final(self).wf(),
            final(self).input() == old(self).input(),
            r matches Ok(p) ==> {
                &&& final(self).current() is EOF
                &&& renders_decls(p.decls@, Parser::consumed(old(self), final(self)))
            },
            (exists|ds: Seq<TopDecl>| holds_program(old(self).input(), old(self).position(), ds))
                ==> r is Ok,
    {
        let ghost start = *self;
        let ghost ts = start.input();
        let ghost p0 = start.position();
        let ghost hint: Option<Seq<TopDecl>> = if exists|ds: Seq<TopDecl>|
            holds_program(ts, p0, ds) {
            Some(choose|ds: Seq<TopDecl>| holds_program(ts, p0, ds))
        } else {
            None
        };
        let ghost hd = match hint {
            Some(ds) => ds,
            None => Seq::empty(),
        };
        let mut decls: Vec<TopDecl> = Vec::new();
        proof {
            assert(Parser::consumed(&start, self) =~= Seq::<Token>::empty());
            if hint is Some {
                assert(decls_tokens(hd, 0) =~= Seq::<Token>::empty());
            }
        }

        while !self.at_eof()
            invariant
                self.wf(),
                start.wf(),
                self.input() == start.input(),
                start.position() <= self.position(),
                start == *old(self),
                ts == start.input(),
                p0 == start.position(),
                renders_decls(decls@, Parser::consumed(&start, self)),
                (exists|ds: Seq<TopDecl>| holds_program(ts, p0, ds)) ==> hint is Some,
                hint is Some ==> {
                    &&& hint == Some(hd)
                    &&& holds_program(ts, p0, hd)
                    &&& decls@.len() <= hd.len()
                    &&& self.position() == p0 + decls_tokens(hd, decls@.len() as nat).len()
                },
            decreases self.input().len() - self.position(),
        {
            let ghost mid = *self;
            let ghost i = decls@.len() as nat;
            let ghost inner = if hint is Some && i < hd.len() {
                Some(hd[i as int])
            } else {
                None
            };
            proof {
                if hint is Some {
                    if i < hd.len() {
                        lemma_decl_at(ts, p0, hd, i);
                        assert(simple_top(hd[i as int]));
                    } else {
                        assert(token_at(ts, self.position()) is EOF);
                    }
                }
            }
            let d = self.parse_top_decl(Ghost(inner))?;
            proof {
                let all = Parser::consumed(&start, self);
                let k = mid.position() - start.position();
                assert(all.subrange(0, k) =~= Parser::consumed(&start, &mid));
                assert(all.subrange(k, all.len() as int) =~= Parser::consumed(&mid, self));
                let ds = decls@.push(d);
                assert(ds.drop_last() =~= decls@);
                assert(renders_decls(ds, all));
            }
            decls.push(d);
        }
        Ok(Program { decls })
    }

    /// Consumes a struct, a constant or a function.
    ///
    /// Given `hint`, a declaration whose tokens stand at the position, it reads exactly
    /// those tokens.
    fn parse_top_decl(&mut self, hint: Ghost<Option<TopDecl>>) -> (r: Result<TopDecl, ParseError>)
        requires
            old(self).wf(),
            hint@ matches Some(d) ==> simple_top(d) && starts_with(
                old(self).input(),
                old(self).position(),
                top_tokens(d),
            ),
        ensures
            final(self).wf(),
            final(self).input() == old(self).input(),
            r matches Ok(d) ==> {
                &&& old(self).position() < final(self).position()
                &&& renders_top(d, Parser::consumed(old(self), final(self)))
            },
            hint@ matches Some(d) ==> r is Ok && final(self).position() == old(self).position()
                + top_tokens(d).len(),
    {
        let ghost s0 = *self;
        let ghost ts = s0.input();
        let ghost p = s0.position();
        proof {
            if let Some(d) = hint@ {
                lemma_top_first(d);
                lemma_starts_with_first(ts, p, top_tokens(d));
            }
            if let Some(TopDecl::Func(f)) = hint@ {
                lemma_func_parts(ts, p, f);
            }
        }
        let at = self.pos;
        match self.peek() {
            Token::Struct => {
                let ghost inner = match hint@ {
                    Some(TopDecl::Struct(sd)) => Some(sd),
                    _ => None,
                };
                Ok(TopDecl::Struct(self.parse_struct_decl(Ghost(inner))?))
            },
            Token::Const => {
                let ghost inner = match hint@ {
                    Some(TopDecl::Const(c)) => Some(c),
                    _ => None,
                };
                Ok(TopDecl::Const(self.parse_const_decl(Ghost(inner))?))
            },
            Token::I32 | Token::Ident(_) => {
                let ghost hf = match hint@ {
                    Some(TopDecl::Func(f)) => Some(f),
                    _ => None,
                };
                let ret_type = self.parse_type()?;
                let ghost s1 = *self;
                let name = self.parse_name()?;
                self.expect(&Token::LParen)?;
                let ghost s2 = *self;
                let ghost hparams = match hf {
                    Some(f) => Some(f.params@),
                    None => None,
                };
                let params = self.parse_params(Ghost(hparams))?;
                let ghost s3 = *self;
                self.expect(&Token::RParen)?;
                let ghost s4 = *self;
                let ghost hbody = match hf {
                    Some(f) => Some(f.body),
                    None => None,
                };
                let body = self.parse_block(Ghost(hbody))?;
                let f = FuncDef { ret_type, name, params, body };
                proof {
                    let ts = Parser::consumed(&s0, self);
                    let b = s0.position() as int;
                    assert(ts.subrange(0, 3) =~= seq![
                        type_token(f.ret_type),
                        Token::Ident(f.name),
                        Token::LParen,
                    ]);
                    assert(ts.subrange(3, s3.position() - b) =~= Parser::consumed(&s2, &s3));
                    assert(ts.subrange(s4.position() - b, ts.len() as int) =~= Parser::consumed(
                        &s4,
                        self,
                    ));
                }
                Ok(TopDecl::Func(f))
            },
            _ => Err(ParseError::Unexpected { at }),
        }
    }

    /// Consumes a name.
    fn parse_name(&mut self) -> (r: Result<String, ParseError>)
        requires
            old(self).wf(),
        ensures
            final(self).wf(),
            final(self).input() == old(self).input(),
            r matches Ok(n) ==> {
                &&& final(self).position() == old(self).position() + 1
                &&& old(self).current() == Token::Ident(n)
            },
            old(self).current() is Ident ==> r is Ok,
    {
        let at = self.pos;
        match self.next() {
            Token::Ident(id) => Ok(id),
            _ => Err(ParseError::ExpectedName { at }),
        }
    }

    fn parse_struct_decl(&mut self, hint: Ghost<Option<StructDecl>>) -> (r: Result<
        StructDecl,
        ParseError,
    >)
        requires
            old(self).wf(),
            hint@ matches Some(sd) ==> starts_with(
                old(self).input(),
                old(self).position(),
                struct_tokens(sd),
            ),
        ensures
            final(self).wf(),
            final(self).input() == old(self).input(),
            r matches Ok(s) ==> {
                &&& old(self).position() < final(self).position()
                &&& Parser::consumed(old(self), final(self)) == struct_tokens(s)
            },
            hint@ matches Some(sd) ==> r is Ok && final(self).position() == old(self).position()
                + struct_tokens(sd).len(),
    {
        let ghost s0 = *self;
        let ghost ts = s0.input();
        let ghost p = s0.position();
        let ghost hs = match hint@ {
            Some(sd) => sd.fields@,
            None => Seq::empty(),
        };
        proof {
            if let Some(sd) = hint@ {
                let head = seq![Token::Struct, Token::Ident(sd.name), Token::LBrace];
                let body = fields_tokens(hs, hs.len());
                let tail = seq![Token::RBrace, Token::Semicolon];
                lemma_starts_with_concat(ts, p, head + body, tail);
                lemma_starts_with_concat(ts, p, head, body);
                lemma_starts_with_index(ts, p, head, 0);
                lemma_starts_with_index(ts, p, head, 1);
                lemma_starts_with_index(ts, p, head, 2);
                lemma_starts_with_index(ts, p + 3 + body.len(), tail, 0);
                lemma_starts_with_index(ts, p + 3 + body.len(), tail, 1);
            }
        }
        self.expect(&Token::Struct)?;
        let name = self.parse_name()?;
        self.expect(&Token::LBrace)?;
        let ghost s1 = *self;
        let mut fields: Vec<Field> = Vec::new();
        while !self.at(&Token::RBrace)
            invariant
                self.wf(),
                s0 == *old(self),
                ts == s0.input(),
                p == s0.position(),
                s1.input() == s0.input(),
                s0.position() < s1.position(),
                self.input() == s0.input(),
                s1.position() <= self.position(),
                Parser::consumed(&s1, self) == fields_tokens(fields@, fields@.len()),
                hint@ matches Some(sd) ==> {
                    &&& hs == sd.fields@
                    &&& s1.position() == p + 3
                    &&& starts_with(ts, s1.position(), fields_tokens(hs, hs.len()))
                    &&& token_at(ts, s1.position() + fields_tokens(hs, hs.len()).len()) is RBrace
                    &&& fields@.len() <= hs.len()
                    &&& self.position() == s1.position() + fields_tokens(hs, fields@.len() as nat).len()
                },
            decreases self.input().len() - self.position(),
        {
            let ghost m = *self;
            let ghost i = fields@.len() as nat;
            let ghost inner = if hint@ is Some && i < hs.len() {
                Some(hs[i as int])
            } else {
                None
            };
            proof {
                if hint@ is Some {
                    if i < hs.len() {
                        lemma_field_at(ts, s1.position(), hs, i);
                    } else {
                        assert(token_at(ts, self.position()) is RBrace);
                    }
                }
            }
            let f = self.parse_field(Ghost(inner))?;
            proof {
                assert(Parser::consumed(&s1, self) =~= Parser::consumed(&s1, &m)
                    + Parser::consumed(&m, self));
                lemma_fields_prefix(fields@.push(f), fields@, fields@.len());
            }
            fields.push(f);
        }
        proof {
            if hint@ is Some {
                let i = fields@.len() as nat;
                if i < hs.len() {
                    lemma_field_at(ts, s1.position(), hs, i);
                    lemma_starts_with_first(ts, self.position(), field_tokens(hs[i as int]));
                }
            }
        }
        let ghost s2 = *self;
        self.expect(&Token::RBrace)?;
        self.expect(&Token::Semicolon)?;
        let s = StructDecl { name, fields };
        proof {
            assert(Parser::consumed(&s0, self) =~= seq![
                Token::Struct,
                Token::Ident(s.name),
                Token::LBrace,
            ] + Parser::consumed(&s1, &s2) + seq![Token::RBrace, Token::Semicolon]);
        }
        Ok(s)
    }

    fn parse_field(&mut self, hint: Ghost<Option<Field>>) -> (r: Result<Field, ParseError>)
        requires
            old(self).wf(),
            hint@ matches Some(f) ==> starts_with(
                old(self).input(),
                old(self).position(),
                field_tokens(f),
            ),
        ensures
            final(self).wf(),
            final(self).input() == old(self).input(),
            r matches Ok(f) ==> {
                &&& old(self).position() < final(self).position()
                &&& Parser::consumed(old(self), final(self)) == field_tokens(f)
            },
            hint@ matches Some(f) ==> r is Ok && final(self).position() == old(self).position()
                + 3,
    {
        let ghost s0 = *self;
        proof {
            if let Some(f) = hint@ {
                lemma_starts_with_index(s0.input(), s0.position(), field_tokens(f), 0);
                lemma_starts_with_index(s0.input(), s0.position(), field_tokens(f), 1);
                lemma_starts_with_index(s0.input(), s0.position(), field_tokens(f), 2);
            }
        }
        let ty = self.parse_type()?;
        let name = self.parse_name()?;
        self.expect(&Token::Semicolon)?;
        let f = Field { ty, name };
        assert(Parser::consumed(&s0, self) =~= field_tokens(f));
        Ok(f)
    }

    /// Consumes a type: `i32` or a name.
    fn parse_type(&mut self) -> (r: Result<Type, ParseError>)
        requires
            old(self).wf(),
        ensures
            final(self).wf(),
            final(self).input() == old(self).input(),
            r matches Ok(t) ==> {
                &&& final(self).position() == old(self).position() + 1
                &&& old(self).current() == type_token(t)
            },
            forall|t: Type| old(self).current() == type_token(t) ==> r is Ok,
    {
        let at = self.pos;
        match self.next() {
            Token::I32 => {
                let name = String::from_str("i32");
                proof {
                    reveal_strlit("i32");
                    assert(name@ =~= i32_name());
                }
                Ok(Type { name })
            },
            Token::Ident(id) => {
                if is_i32_name(&id) {
                    return Err(ParseError::ExpectedType { at });
                }
                Ok(Type { name: id })
            },
            _ => Err(ParseError::ExpectedType { at }),
        }
    }

    /// Consumes parameters, separated by commas, up to the first token that starts none.
    fn parse_params(&mut self, hint: Ghost<Option<Seq<Param>>>) -> (r: Result<
        Vec<Param>,
        ParseError,
    >)
        requires
            old(self).wf(),
            hint@ matches Some(hp) ==> starts_with(
                old(self).input(),
                old(self).position(),
                params_tokens(hp, hp.len()) + seq![Token::RParen],
            ),
        ensures
            final(self).wf(),
            final(self).input() == old(self).input(),
            r matches Ok(ps) ==> {
                &&& old(self).position() <= final(self).position()
                &&& renders_params(ps@, Parser::consumed(old(self), final(self)))
            },
            hint@ matches Some(hp) ==> r is Ok && final(self).position() == old(self).position()
                + params_tokens(hp, hp.len()).len(),
    {
        let ghost s0 = *self;
        let ghost ts = s0.input();
        let ghost p0 = s0.position();
        let ghost hp = match hint@ {
            Some(hp) => hp,
            None => Seq::empty(),
        };
        let ghost full = params_tokens(hp, hp.len());
        proof {
            if hint@ is Some {
                lemma_starts_with_concat(ts, p0, full, seq![Token::RParen]);
                lemma_starts_with_first(ts, p0 + full.len(), seq![Token::RParen]);
            }
        }
        let mut params: Vec<Param> = Vec::new();
        proof {
            assert(Parser::consumed(&s0, self) =~= Seq::<Token>::empty());
        }
        while self.at_param_start()
            invariant
                self.wf(),
                s0 == *old(self),
                ts == s0.input(),
                p0 == s0.position(),
                self.input() == s0.input(),
                s0.position() <= self.position(),
                params@.len() == 0 ==> self.position() == s0.position(),
                params@.len() > 0 ==> Parser::consumed(&s0, self) == params_tokens(
                    params@,
                    params@.len(),
                ) + seq![Token::Comma],
                hint@ is Some ==> {
                    &&& hint@ == Some(hp)
                    &&& full == params_tokens(hp, hp.len())
                    &&& starts_with(ts, p0, full)
                    &&& token_at(ts, p0 + full.len()) is RParen
                    &&& params@.len() <= hp.len()
                    &&& params@.len() > 0 ==> params@.len() < hp.len() && self.position() == p0
                        + params_tokens(hp, params@.len() as nat).len() + 1
                },
            decreases self.input().len() - self.position(),
        {
            let ghost m = *self;
            let ghost i = params@.len() as nat;
            proof {
                if hint@ is Some {
                    if i < hp.len() {
                        lemma_param_at(ts, p0, hp, i);
                        if i == 0 {
                            lemma_starts_with_index(ts, p0, param_tokens(hp[0]), 0);
                            lemma_starts_with_index(ts, p0, param_tokens(hp[0]), 1);
                        } else {
                            let q = p0 + params_tokens(hp, i).len() + 1;
                            lemma_starts_with_index(ts, q, param_tokens(hp[i as int]), 0);
                            lemma_starts_with_index(ts, q, param_tokens(hp[i as int]), 1);
                        }
                    } else {
                        assert(token_at(ts, self.position()) is RParen);
                    }
                }
            }
            let ty = self.parse_type()?;
            let name = self.parse_name()?;
            let p = Param { ty, name };
            let ghost ps = params@.push(p);
            proof {
                assert(ps.subrange(0, params@.len() as int) =~= params@);
                lemma_params_prefix(ps, params@, params@.len());
                assert(Parser::consumed(&m, self) =~= param_tokens(p));
                assert(Parser::consumed(&s0, self) =~= Parser::consumed(&s0, &m)
                    + Parser::consumed(&m, self));
                assert(Parser::consumed(&s0, self) =~= params_tokens(ps, ps.len()));
                if hint@ is Some {
                    assert(self.position() == p0 + params_tokens(hp, i + 1).len());
                    if i + 1 < hp.len() {
                        lemma_param_at(ts, p0, hp, i + 1);
                    }
                }
            }
            params.push(p);
            if self.at(&Token::Comma) {
                let ghost m2 = *self;
                self.next();
                proof {
                    assert(Parser::consumed(&s0, self) =~= Parser::consumed(&s0, &m2) + seq![
                        Token::Comma,
                    ]);
                }
            } else {
                return Ok(params);
            }
        }
        proof {
            if hint@ is Some {
                let i = params@.len() as nat;
                if i < hp.len() {
                    lemma_param_at(ts, p0, hp, i);
                    if i == 0 {
                        lemma_starts_with_index(ts, p0, param_tokens(hp[0]), 0);
                    } else {
                        let q = p0 + params_tokens(hp, i).len() + 1;
                        lemma_starts_with_index(ts, q, param_tokens(hp[i as int]), 0);
                    }
                }
            }
        }
        Ok(params)
    }

    /// Whether the next token can start a parameter.
    fn at_param_start(&self) -> (r: bool)
        requires
            self.wf(),
        ensures
            r == (self.current() is I32 || self.current() is Ident),
    {
        self.pos < self.tokens.len() && matches!(self.tokens[self.pos], Token::I32 | Token::Ident(_))
    }

    fn parse_block(&mut self, hint: Ghost<Option<Block>>) -> (r: Result<Block, ParseError>)
        requires
            old(self).wf(),
            hint@ matches Some(b) ==> simple_block(b) && starts_with(
                old(self).input(),
                old(self).position(),
                block_tokens(b),
            ),
        ensures
            final(self).wf(),
            final(self).input() == old(self).input(),
            r matches Ok(b) ==> {
                &&& old(self).position() <= final(self).position()
                &&& Parser::consumed(old(self), final(self)) == block_tokens(b)
            },
            hint@ matches Some(b) ==> r is Ok && final(self).position() == old(self).position()
                + block_tokens(b).len(),
    {
        let ghost s0 = *self;
        let ghost ts = s0.input();
        let ghost hs = match hint@ {
            Some(b) => b.stmts@,
            None => Seq::empty(),
        };
        proof {
            if let Some(b) = hint@ {
                let body = stmts_tokens(hs, hs.len());
                lemma_starts_with_concat(ts, s0.position(), seq![Token::LBrace] + body, seq![Token::RBrace]);
                lemma_starts_with_concat(ts, s0.position(), seq![Token::LBrace], body);
                lemma_starts_with_first(ts, s0.position(), seq![Token::LBrace]);
                lemma_starts_with_first(ts, s0.position() + 1 + body.len(), seq![Token::RBrace]);
            }
        }
        self.expect(&Token::LBrace)?;
        let ghost s1 = *self;
        let mut stmts: Vec<Stmt> = Vec::new();
        while !self.at(&Token::RBrace)
            invariant
                self.wf(),
                s0 == *old(self),
                ts == s0.input(),
                s1.input() == s0.input(),
                s0.position() < s1.position(),
                self.input() == s0.input(),
                s1.position() <= self.position(),
                Parser::consumed(&s1, self) == stmts_tokens(stmts@, stmts@.len()),
                hint@ matches Some(b) ==> {
                    &&& hs == b.stmts@
                    &&& simple_block(b)
                    &&& s1.position() == s0.position() + 1
                    &&& starts_with(ts, s1.position(), stmts_tokens(hs, hs.len()))
                    &&& token_at(ts, s1.position() + stmts_tokens(hs, hs.len()).len()) is RBrace
                    &&& stmts@.len() <= hs.len()
                    &&& self.position() == s1.position() + stmts_tokens(hs, stmts@.len() as nat).len()
                },
            decreases self.input().len() - self.position(),
        {
            let ghost m = *self;
            let ghost i = stmts@.len() as nat;
            let ghost inner = if hint@ is Some && i < hs.len() {
                Some(hs[i as int])
            } else {
                None
            };
            proof {
                if hint@ is Some {
                    if i < hs.len() {
                        lemma_stmt_at(ts, s1.position(), hs, i);
                    } else {
                        assert(token_at(ts, self.position()) is RBrace);
                    }
                }
            }
            let s = self.parse_stmt(Ghost(inner))?;
            proof {
                assert(Parser::consumed(&s1, self) =~= Parser::consumed(&s1, &m)
                    + Parser::consumed(&m, self));
                lemma_stmts_prefix(stmts@.push(s), stmts@, stmts@.len());
            }
            stmts.push(s);
        }
        proof {
            if hint@ is Some {
                let i = stmts@.len() as nat;
                if i < hs.len() {
                    lemma_stmt_at(ts, s1.position(), hs, i);
                    lemma_stmt_first(hs[i as int]);
                    lemma_starts_with_first(ts, self.position(), stmt_tokens(hs[i as int]));
                }
            }
        }
        let ghost s2 = *self;
        self.expect(&Token::RBrace)?;
        let b = Block { stmts };
        proof {
            assert(Parser::consumed(&s0, self) =~= seq![Token::LBrace] + Parser::consumed(&s1, &s2)
                + seq![Token::RBrace]);
        }
        Ok(b)
    }

    fn parse_stmt(&mut self, hint: Ghost<Option<Stmt>>) -> (r: Result<Stmt, ParseError>)
        requires
            old(self).wf(),
            hint@ matches Some(x) ==> simple_stmt(x) && starts_with(
                old(self).input(),
                old(self).position(),
                stmt_tokens(x),
            ),
        ensures
            final(self).wf(),
            final(self).input() == old(self).input(),
            r matches Ok(s) ==> {
                &&& old(self).position() < final(self).position()
                &&& Parser::consumed(old(self), final(self)) == stmt_tokens(s)
            },
            hint@ matches Some(x) ==> r is Ok && final(self).position() == old(self).position()
                + stmt_tokens(x).len(),
    {
        let ghost s0 = *self;
        let ghost ts = s0.input();
        let ghost p = s0.position();
        proof {
            match hint@ {
                Some(Stmt::ConstDecl(c)) => {
                    lemma_starts_with_index(ts, p, stmt_tokens(Stmt::ConstDecl(c)), 0);
                },
                Some(Stmt::Return(v)) => {
                    lemma_starts_with_index(ts, p, stmt_tokens(Stmt::Return(v)), 0);
                },
                Some(Stmt::VarDecl(v)) => {
                    let head = seq![type_token(v.ty), Token::Ident(v.name)];
                    let tail = match v.value {
                        Some(e) => seq![Token::Eq] + expr_tokens(e),
                        None => Seq::empty(),
                    };
                    lemma_starts_with_concat(ts, p, head + tail, seq![Token::Semicolon]);
                    lemma_starts_with_concat(ts, p, head, tail);
                    lemma_starts_with_index(ts, p, head, 0);
                    lemma_starts_with_index(ts, p, head, 1);
                    match v.value {
                        Some(e) => {
                            lemma_starts_with_concat(ts, p + 2, seq![Token::Eq], expr_tokens(e));
                            lemma_starts_with_first(ts, p + 2, seq![Token::Eq]);
                        },
                        None => {
                            lemma_starts_with_first(ts, p + 2, seq![Token::Semicolon]);
                        },
                    }
                },
                Some(Stmt::Expr(e)) => {
                    lemma_expr_first(e);
                    lemma_starts_with_concat(ts, p, expr_tokens(e), seq![Token::Semicolon]);
                    lemma_starts_with_first(ts, p, expr_tokens(e));
                },
                _ => {},
            }
        }
        match self.peek() {
            Token::Const => {
                let ghost inner = match hint@ {
                    Some(Stmt::ConstDecl(c)) => Some(c),
                    _ => None,
                };
                Ok(Stmt::ConstDecl(self.parse_const_decl(Ghost(inner))?))
            },
            Token::Return => {
                let ghost inner = match hint@ {
                    Some(Stmt::Return(v)) => Some(v),
                    _ => None,
                };
                let value = self.parse_return_stmt(Ghost(inner))?;
                Ok(Stmt::Return(value))
            },
            Token::I32 | Token::Ident(_) => {
                let pos = self.pos;
                let ty = self.parse_type()?;
                let at = self.pos;
                match self.next() {
                    Token::Ident(id) => {
                        let ghost s2 = *self;
                        if self.at(&Token::Eq) {
                            self.next();
                            let ghost s3 = *self;
                            let ghost inner = match hint@ {
                                Some(Stmt::VarDecl(v)) => v.value,
                                _ => None,
                            };
                            let e = self.parse_expr(Ghost(inner))?;
                            let ghost s4 = *self;
                            proof {
                                if let Some(Stmt::VarDecl(v)) = hint@ {
                                    if let Some(x) = v.value {
                                        lemma_starts_with_first(ts, s4.position(), seq![Token::Semicolon]);
                                    }
                                }
                            }
                            self.expect(&Token::Semicolon)?;
                            let v = VarDecl { ty, name: id, value: Some(e) };
                            proof {
                                assert(Parser::consumed(&s0, self) =~= seq![
                                    type_token(v.ty),
                                    Token::Ident(v.name),
                                    Token::Eq,
                                ] + Parser::consumed(&s3, &s4) + seq![Token::Semicolon]);
                            }
                            Ok(Stmt::VarDecl(v))
                        } else if self.at(&Token::Semicolon) {
                            self.next();
                            let v = VarDecl { ty, name: id, value: None };
                            proof {
                                assert(Parser::consumed(&s0, self) =~= seq![
                                    type_token(v.ty),
                                    Token::Ident(v.name),
                                    Token::Semicolon,
                                ]);
                            }
                            Ok(Stmt::VarDecl(v))
                        } else {
                            self.pos = pos;
                            self.parse_expr_stmt(Ghost(None))
                        }
                    },
                    _ => Err(ParseError::ExpectedName { at }),
                }
            },
            _ => {
                let ghost inner = match hint@ {
                    Some(Stmt::Expr(e)) => Some(e),
                    _ => None,
                };
                self.parse_expr_stmt(Ghost(inner))
            },
        }
    }

    /// An expression followed by `;`.
    fn parse_expr_stmt(&mut self, hint: Ghost<Option<Expr>>) -> (r: Result<Stmt, ParseError>)
        requires
            old(self).wf(),
            hint@ matches Some(x) ==> simple_expr(x) && starts_with(
                old(self).input(),
                old(self).position(),
                expr_tokens(x) + seq![Token::Semicolon],
            ),
        ensures
            final(self).wf(),
            final(self).input() == old(self).input(),
            r matches Ok(s) ==> {
                &&& old(self).position() < final(self).position()
                &&& Parser::consumed(old(self), final(self)) == stmt_tokens(s)
            },
            hint@ matches Some(x) ==> r is Ok && final(self).position() == old(self).position()
                + expr_tokens(x).len() + 1,
    {
        let ghost s0 = *self;
        proof {
            if let Some(x) = hint@ {
                lemma_starts_with_concat(s0.input(), s0.position(), expr_tokens(x), seq![Token::Semicolon]);
            }
        }
        let e = self.parse_expr(hint)?;
        let ghost s1 = *self;
        proof {
            if let Some(x) = hint@ {
                lemma_starts_with_first(s0.input(), s1.position(), seq![Token::Semicolon]);
            }
        }
        self.expect(&Token::Semicolon)?;
        proof {
            assert(Parser::consumed(&s0, self) =~= Parser::consumed(&s0, &s1) + seq![
                Token::Semicolon,
            ]);
        }
        Ok(Stmt::Expr(e))
    }

    fn parse_return_stmt(&mut self, hint: Ghost<Option<Option<Expr>>>) -> (r: Result<
        Option<Expr>,
        ParseError,
    >)
        requires
            old(self).wf(),
            hint@ matches Some(v) ==> simple_stmt(Stmt::Return(v)) && starts_with(
                old(self).input(),
                old(self).position(),
                stmt_tokens(Stmt::Return(v)),
            ),
        ensures
            final(self).wf(),
            final(self).input() == old(self).input(),
            r matches Ok(v) ==> {
                &&& old(self).position() < final(self).position()
                &&& Parser::consumed(old(self), final(self)) == stmt_tokens(Stmt::Return(v))
            },
            hint@ matches Some(v) ==> r is Ok && final(self).position() == old(self).position()
                + stmt_tokens(Stmt::Return(v)).len(),
    {
        let ghost s0 = *self;
        let ghost ts = s0.input();
        let ghost p = s0.position();
        let ghost inner = match hint@ {
            Some(Some(e)) => Some(e),
            _ => None,
        };
        proof {
            match hint@ {
                Some(Some(e)) => {
                    lemma_starts_with_concat(ts, p, seq![Token::Return] + expr_tokens(e), seq![Token::Semicolon]);
                    lemma_starts_with_concat(ts, p, seq![Token::Return], expr_tokens(e));
                    lemma_starts_with_first(ts, p, seq![Token::Return]);
                    lemma_expr_first(e);
                    lemma_starts_with_first(ts, p + 1, expr_tokens(e));
                },
                Some(None) => {
                    lemma_starts_with_index(ts, p, seq![Token::Return, Token::Semicolon], 0);
                    lemma_starts_with_index(ts, p, seq![Token::Return, Token::Semicolon], 1);
                },
                None => {},
            }
        }
        self.expect(&Token::Return)?;
        let ghost s1 = *self;
        let value = if self.at(&Token::Semicolon) {
            None
        } else {
            Some(self.parse_expr(Ghost(inner))?)
        };
        let ghost s2 = *self;
        proof {
            if let Some(Some(e)) = hint@ {
                lemma_starts_with_first(ts, s2.position(), seq![Token::Semicolon]);
            }
        }
        self.expect(&Token::Semicolon)?;
        proof {
            assert(Parser::consumed(&s0, self) =~= seq![Token::Return] + Parser::consumed(&s1, &s2)
                + seq![Token::Semicolon]);
            if value is None {
                assert(Parser::consumed(&s1, &s2) =~= Seq::<Token>::empty());
            }
        }
        Ok(value)
    }

    fn parse_const_decl(&mut self, hint: Ghost<Option<ConstDecl>>) -> (r: Result<
        ConstDecl,
        ParseError,
    >)
        requires
            old(self).wf(),
            hint@ matches Some(c) ==> simple_expr(c.value) && starts_with(
                old(self).input(),
                old(self).position(),
                const_tokens(c),
            ),
        ensures
            final(self).wf(),
            final(self).input() == old(self).input(),
            r matches Ok(c) ==> {
                &&& old(self).position() < final(self).position()
                &&& Parser::consumed(old(self), final(self)) == const_tokens(c)
            },
            hint@ matches Some(c) ==> r is Ok && final(self).position() == old(self).position()
                + const_tokens(c).len(),
    {
        let ghost s0 = *self;
        let ghost ts = s0.input();
        let ghost p = s0.position();
        let ghost inner = match hint@ {
            Some(c) => Some(c.value),
            None => None,
        };
        proof {
            if let Some(c) = hint@ {
                let head = seq![Token::Const, type_token(c.ty), Token::Ident(c.name), Token::Eq];
                lemma_starts_with_concat(ts, p, head + expr_tokens(c.value), seq![Token::Semicolon]);
                lemma_starts_with_concat(ts, p, head, expr_tokens(c.value));
                lemma_starts_with_index(ts, p, head, 0);
                lemma_starts_with_index(ts, p, head, 1);
                lemma_starts_with_index(ts, p, head, 2);
                lemma_starts_with_index(ts, p, head, 3);
            }
        }
        self.expect(&Token::Const)?;
        let ty = self.parse_type()?;
        let name = self.parse_name()?;
        self.expect(&Token::Eq)?;
        let ghost s1 = *self;
        let value = self.parse_expr(Ghost(inner))?;
        let ghost s2 = *self;
        proof {
            if let Some(c) = hint@ {
                lemma_starts_with_first(ts, s2.position(), seq![Token::Semicolon]);
            }
        }
        self.expect(&Token::Semicolon)?;
        let c = ConstDecl { ty, name, value };
        proof {
            assert(Parser::consumed(&s0, self) =~= seq![
                Token::Const,
                type_token(c.ty),
                Token::Ident(c.name),
                Token::Eq,
            ] + Parser::consumed(&s1, &s2) + seq![Token::Semicolon]);
        }
        Ok(c)
    }

    /// Consumes a number, a name, or `print(expr)`.
    ///
    /// Given `hint`, an expression whose tokens stand at the position, it reads exactly
    /// those tokens.
    fn parse_expr(&mut self, hint: Ghost<Option<Expr>>) -> (r: Result<Expr, ParseError>)
        requires
            old(self).wf(),
            hint@ matches Some(x) ==> simple_expr(x) && starts_with(
                old(self).input(),
                old(self).position(),
                expr_tokens(x),
            ),
        ensures
            final(self).wf(),
            final(self).input() == old(self).input(),
            r matches Ok(e) ==> {
                &&& old(self).position() < final(self).position()
                &&& Parser::consumed(old(self), final(self)) == expr_tokens(e)
            },
            hint@ matches Some(x) ==> r is Ok && final(self).position() == old(self).position()
                + expr_tokens(x).len(),
        decreases old(self).input().len() - old(self).position(),
    {
        let ghost s0 = *self;
        let at = self.pos;
        proof {
            if let Some(x) = hint@ {
                lemma_starts_with_first(s0.input(), s0.position(), expr_tokens(x));
            }
        }
        match self.next() {
            Token::Number(n) => Ok(Expr::Number(n)),
            Token::Ident(id) => Ok(Expr::Ident(id)),
            Token::Print => {
                let ghost inner = match hint@ {
                    Some(Expr::Builtin(Builtin::Print(a))) => Some(*a),
                    _ => None,
                };
                proof {
                    if let Some(Expr::Builtin(Builtin::Print(a))) = hint@ {
                        let ts = s0.input();
                        let p = s0.position();
                        lemma_starts_with_concat(ts, p, seq![Token::Print, Token::LParen] + expr_tokens(*a), seq![Token::RParen]);
                        lemma_starts_with_concat(ts, p, seq![Token::Print, Token::LParen], expr_tokens(*a));
                        lemma_starts_with_index(ts, p, seq![Token::Print, Token::LParen], 1);
                    }
                }
                self.expect(&Token::LParen)?;
                let ghost s1 = *self;
                let arg = self.parse_expr(Ghost(inner))?;
                proof {
                    if let Some(Expr::Builtin(Builtin::Print(a))) = hint@ {
                        lemma_starts_with_first(s0.input(), self.position(), seq![Token::RParen]);
                    }
                }
                let ghost s2 = *self;
                self.expect(&Token::RParen)?;
                let e = Expr::Builtin(Builtin::Print(Box::new(arg)));
                proof {
                    assert(Parser::consumed(&s0, self) =~= seq![Token::Print, Token::LParen]
                        + Parser::consumed(&s1, &s2) + seq![Token::RParen]);
                }
                Ok(e)
            },
            _ => Err(ParseError::Unexpected { at }),
        }
    }
}

/// Whether `s` spells `i32`.
fn is_i32_name(s: &String) -> (r: bool)
    ensures
        r == (s@ == i32_name()),
{
    let t = s.as_str();
    let r = t.unicode_len() == 3 && t.get_char(0) == 'i' && t.get_char(1) == '3' && t.get_char(2)
        == '2';
    proof {
        if r {
            assert(s@ =~= i32_name());
        }
    }
    r
}

/// Two field lists that agree on their first `k` fields write them alike.
pub proof fn lemma_fields_prefix(fs: Seq<Field>, gs: Seq<Field>, k: nat)
    requires
        k <= fs.len(),
        k <= gs.len(),
        forall|i: int| 0 <= i < k ==> fs[i] == gs[i],
    ensures
        fields_tokens(fs, k) == fields_tokens(gs, k),
    decreases k,
{
    if k > 0 {
        lemma_fields_prefix(fs, gs, (k - 1) as nat);
    }
}

/// Two statement lists that agree on their first `k` statements write them alike.
pub proof fn lemma_stmts_prefix(ss: Seq<Stmt>, ts: Seq<Stmt>, k: nat)
    requires
        k <= ss.len(),
        k <= ts.len(),
        forall|i: int| 0 <= i < k ==> ss[i] == ts[i],
    ensures
        stmts_tokens(ss, k) == stmts_tokens(ts, k),
    decreases k,
{
    if k > 0 {
        lemma_stmts_prefix(ss, ts, (k - 1) as nat);
    }
}

/// Writing the first `k` of a longer parameter list gives the same tokens as writing a
/// list that agrees with it on those `k`.
pub proof fn lemma_params_prefix(ps: Seq<Param>, qs: Seq<Param>, k: nat)
    requires
        k <= ps.len(),
        k <= qs.len(),
        forall|i: int| 0 <= i < k ==> ps[i] == qs[i],
    ensures
        params_tokens(ps, k) == params_tokens(qs, k),
    decreases k,
{
    if k > 1 {
        lemma_params_prefix(ps, qs, (k - 1) as nat);
    }
}

} // verus!
