use vstd::prelude::*;

verus! {

/// One token of the source language.
#[derive(Debug, Clone)]
pub enum Token {
    // keywords
    Struct,
    Effect,
    Const,
    Var,
    If,
    Else,
    While,
    Return,
    Print,
    Input,
    Perform,
    Void,
    I32,
    Mut,
    // symbols
    LBrace,
    RBrace,
    LParen,
    RParen,
    LBracket,
    RBracket,
    Comma,
    Semicolon,
    Colon,
    Arrow,
    Dot,
    Plus,
    Minus,
    Star,
    Slash,
    Percent,
    And,
    Or,
    Not,
    Eq,
    EqEq,
    Neq,
    Lt,
    Gt,
    Le,
    Ge,
    // literals and identifiers
    Ident(String),
    Number(i64),
    /// The end of the input, or a character that starts no token.
    EOF,
}

impl PartialEq for Token {
    fn eq(&self, other: &Token) -> (r: bool) {
        match self {
            Token::Ident(a) => match other {
                Token::Ident(b) => *a == *b,
                _ => false,
            },
            Token::Number(a) => match other {
                Token::Number(b) => *a == *b,
                _ => false,
            },
            Token::Struct => matches!(other, Token::Struct),
            Token::Effect => matches!(other, Token::Effect),
            Token::Const => matches!(other, Token::Const),
            Token::Var => matches!(other, Token::Var),
            Token::If => matches!(other, Token::If),
            Token::Else => matches!(other, Token::Else),
            Token::While => matches!(other, Token::While),
            Token::Return => matches!(other, Token::Return),
            Token::Print => matches!(other, Token::Print),
            Token::Input => matches!(other, Token::Input),
            Token::Perform => matches!(other, Token::Perform),
            Token::Void => matches!(other, Token::Void),
            Token::I32 => matches!(other, Token::I32),
            Token::Mut => matches!(other, Token::Mut),
            Token::LBrace => matches!(other, Token::LBrace),
            Token::RBrace => matches!(other, Token::RBrace),
            Token::LParen => matches!(other, Token::LParen),
            Token::RParen => matches!(other, Token::RParen),
            Token::LBracket => matches!(other, Token::LBracket),
            Token::RBracket => matches!(other, Token::RBracket),
            Token::Comma => matches!(other, Token::Comma),
            Token::Semicolon => matches!(other, Token::Semicolon),
            Token::Colon => matches!(other, Token::Colon),
            Token::Arrow => matches!(other, Token::Arrow),
            Token::Dot => matches!(other, Token::Dot),
            Token::Plus => matches!(other, Token::Plus),
            Token::Minus => matches!(other, Token::Minus),
            Token::Star => matches!(other, Token::Star),
            Token::Slash => matches!(other, Token::Slash),
            Token::Percent => matches!(other, Token::Percent),
            Token::And => matches!(other, Token::And),
            Token::Or => matches!(other, Token::Or),
            Token::Not => matches!(other, Token::Not),
            Token::Eq => matches!(other, Token::Eq),
            Token::EqEq => matches!(other, Token::EqEq),
            Token::Neq => matches!(other, Token::Neq),
            Token::Lt => matches!(other, Token::Lt),
            Token::Gt => matches!(other, Token::Gt),
            Token::Le => matches!(other, Token::Le),
            Token::Ge => matches!(other, Token::Ge),
            Token::EOF => matches!(other, Token::EOF),
        }
    }
}

impl vstd::std_specs::cmp::PartialEqSpecImpl for Token {
    open spec fn obeys_eq_spec() -> bool {
        true
    }

    open spec fn eq_spec(&self, other: &Token) -> bool {
        same_token(*self, *other)
    }
}

/// Two tokens are the same: same kind, and the same name or value.
pub open spec fn same_token(a: Token, b: Token) -> bool {
    match a {
        Token::Ident(x) => b matches Token::Ident(y) && x@ == y@,
        Token::Number(x) => b matches Token::Number(y) && x == y,
        _ => a == b,
    }
}

/// A copy of `t`.
pub fn copy_token(t: &Token) -> (r: Token)
    ensures
        r == *t,
{
    match t {
        Token::Ident(s) => Token::Ident(s.clone()),
        Token::Number(n) => Token::Number(*n),
        Token::Struct => Token::Struct,
        Token::Effect => Token::Effect,
        Token::Const => Token::Const,
        Token::Var => Token::Var,
        Token::If => Token::If,
        Token::Else => Token::Else,
        Token::While => Token::While,
        Token::Return => Token::Return,
        Token::Print => Token::Print,
        Token::Input => Token::Input,
        Token::Perform => Token::Perform,
        Token::Void => Token::Void,
        Token::I32 => Token::I32,
        Token::Mut => Token::Mut,
        Token::LBrace => Token::LBrace,
        Token::RBrace => Token::RBrace,
        Token::LParen => Token::LParen,
        Token::RParen => Token::RParen,
        Token::LBracket => Token::LBracket,
        Token::RBracket => Token::RBracket,
        Token::Comma => Token::Comma,
        Token::Semicolon => Token::Semicolon,
        Token::Colon => Token::Colon,
        Token::Arrow => Token::Arrow,
        Token::Dot => Token::Dot,
        Token::Plus => Token::Plus,
        Token::Minus => Token::Minus,
        Token::Star => Token::Star,
        Token::Slash => Token::Slash,
        Token::Percent => Token::Percent,
        Token::And => Token::And,
        Token::Or => Token::Or,
        Token::Not => Token::Not,
        Token::Eq => Token::Eq,
        Token::EqEq => Token::EqEq,
        Token::Neq => Token::Neq,
        Token::Lt => Token::Lt,
        Token::Gt => Token::Gt,
        Token::Le => Token::Le,
        Token::Ge => Token::Ge,
        Token::EOF => Token::EOF,
    }
}

} // verus!

verus! {

/// Unicode white space, as `char::is_whitespace` classifies it.
pub open spec fn is_space(c: char) -> bool {
    let u = c as u32;
    ||| 0x09 <= u <= 0x0D
    ||| u == 0x20
    ||| u == 0x85
    ||| u == 0xA0
    ||| u == 0x1680
    ||| 0x2000 <= u <= 0x200A
    ||| u == 0x2028
    ||| u == 0x2029
    ||| u == 0x202F
    ||| u == 0x205F
    ||| u == 0x3000
}

pub open spec fn is_digit(c: char) -> bool {
    '0' <= c <= '9'
}

pub open spec fn is_word_start(c: char) -> bool {
    ('a' <= c <= 'z') || ('A' <= c <= 'Z') || c == '_'
}

pub open spec fn is_word_char(c: char) -> bool {
    is_word_start(c) || is_digit(c)
}

/// The token that a one-character symbol stands for.
pub open spec fn symbol(c: char) -> Option<Token> {
    if c == '{' {
        Some(Token::LBrace)
    } else if c == '}' {
        Some(Token::RBrace)
    } else if c == '(' {
        Some(Token::LParen)
    } else if c == ')' {
        Some(Token::RParen)
    } else if c == '[' {
        Some(Token::LBracket)
    } else if c == ']' {
        Some(Token::RBracket)
    } else if c == ',' {
        Some(Token::Comma)
    } else if c == ';' {
        Some(Token::Semicolon)
    } else if c == ':' {
        Some(Token::Colon)
    } else if c == '.' {
        Some(Token::Dot)
    } else if c == '=' {
        Some(Token::Eq)
    } else if c == '+' {
        Some(Token::Plus)
    } else if c == '-' {
        Some(Token::Minus)
    } else if c == '*' {
        Some(Token::Star)
    } else if c == '/' {
        Some(Token::Slash)
    } else {
        None
    }
}

/// The token that a keyword stands for.
pub open spec fn keyword(w: Seq<char>) -> Option<Token> {
    if w == seq!['s', 't', 'r', 'u', 'c', 't'] {
        Some(Token::Struct)
    } else if w == seq!['e', 'f', 'f', 'e', 'c', 't'] {
        Some(Token::Effect)
    } else if w == seq!['c', 'o', 'n', 's', 't'] {
        Some(Token::Const)
    } else if w == seq!['i', 'f'] {
        Some(Token::If)
    } else if w == seq!['e', 'l', 's', 'e'] {
        Some(Token::Else)
    } else if w == seq!['w', 'h', 'i', 'l', 'e'] {
        Some(Token::While)
    } else if w == seq!['r', 'e', 't', 'u', 'r', 'n'] {
        Some(Token::Return)
    } else if w == seq!['p', 'r', 'i', 'n', 't'] {
        Some(Token::Print)
    } else if w == seq!['i', 'n', 'p', 'u', 't'] {
        Some(Token::Input)
    } else if w == seq!['p', 'e', 'r', 'f', 'o', 'r', 'm'] {
        Some(Token::Perform)
    } else if w == seq!['i', '3', '2'] {
        Some(Token::I32)
    } else if w == seq!['v', 'o', 'i', 'd'] {
        Some(Token::Void)
    } else {
        None
    }
}

/// The first position at or after `pos` that does not hold white space.
pub open spec fn skip_spaces(chars: Seq<char>, pos: nat) -> nat
    decreases chars.len() - pos,
{
    if pos < chars.len() && is_space(chars[pos as int]) {
        skip_spaces(chars, pos + 1)
    } else {
        pos
    }
}

/// The end of the run of digits that starts at `pos`.
pub open spec fn digits_end(chars: Seq<char>, pos: nat) -> nat
    decreases chars.len() - pos,
{
    if pos < chars.len() && is_digit(chars[pos as int]) {
        digits_end(chars, pos + 1)
    } else {
        pos
    }
}

/// The end of the run of word characters that starts at `pos`.
pub open spec fn word_end(chars: Seq<char>, pos: nat) -> nat
    decreases chars.len() - pos,
{
    if pos < chars.len() && is_word_char(chars[pos as int]) {
        word_end(chars, pos + 1)
    } else {
        pos
    }
}

/// The number that a run of decimal digits spells.
pub open spec fn digits_value(ds: Seq<char>) -> nat
    decreases ds.len(),
{
    if ds.len() == 0 {
        0
    } else {
        digits_value(ds.drop_last()) * 10 + (ds.last() as nat - '0' as nat) as nat
    }
}

/// Where the token that starts the input at `pos` (after white space) ends.
pub open spec fn token_end(chars: Seq<char>, pos: nat) -> nat {
    let s = skip_spaces(chars, pos);
    if s >= chars.len() {
        s
    } else if is_digit(chars[s as int]) {
        digits_end(chars, s)
    } else if is_word_start(chars[s as int]) {
        word_end(chars, s)
    } else {
        s + 1
    }
}

/// `t` is the token that the input holds at `pos`, after white space. A number too large
/// for 64 bits, and a character that starts no token, read as `EOF`.
pub open spec fn token_at(chars: Seq<char>, pos: nat, t: Token) -> bool {
    let s = skip_spaces(chars, pos);
    let e = token_end(chars, pos);
    if s >= chars.len() {
        t == Token::EOF
    } else {
        let c = chars[s as int];
        if symbol(c) is Some {
            t == symbol(c)->0
        } else if is_digit(c) {
            let v = digits_value(chars.subrange(s as int, e as int));
            if v <= i64::MAX {
                t == Token::Number(v as i64)
            } else {
                t == Token::EOF
            }
        } else if is_word_start(c) {
            let w = chars.subrange(s as int, e as int);
            match keyword(w) {
                Some(k) => t == k,
                None => t matches Token::Ident(name) && name@ == w,
            }
        } else {
            t == Token::EOF
        }
    }
}

/// Where the `k`-th token from `start` begins to be looked for.
pub open spec fn token_pos(chars: Seq<char>, start: nat, k: nat) -> nat
    decreases k,
{
    if k == 0 {
        start
    } else {
        token_end(chars, token_pos(chars, start, (k - 1) as nat))
    }
}

pub proof fn lemma_skip_spaces_bounds(chars: Seq<char>, pos: nat)
    requires
        pos <= chars.len(),
    ensures
        pos <= skip_spaces(chars, pos) <= chars.len(),
    decreases chars.len() - pos,
{
    if pos < chars.len() && is_space(chars[pos as int]) {
        lemma_skip_spaces_bounds(chars, pos + 1);
    }
}

pub proof fn lemma_run_ends_bounds(chars: Seq<char>, pos: nat)
    requires
        pos <= chars.len(),
    ensures
        pos <= digits_end(chars, pos) <= chars.len(),
        pos <= word_end(chars, pos) <= chars.len(),
    decreases chars.len() - pos,
{
    if pos < chars.len() {
        lemma_run_ends_bounds(chars, pos + 1);
    }
}

/// Relies on `String::push`: appends one character.
#[verifier::external_body]
fn push_char(s: &mut String, c: char)
    ensures
        final(s)@ == old(s)@.push(c),
{
    s.push(c)
}

fn is_space_char(c: char) -> (r: bool)
    ensures
        r == is_space(c),
{
    let u = c as u32;
    (0x09 <= u && u <= 0x0D) || u == 0x20 || u == 0x85 || u == 0xA0 || u == 0x1680 || (0x2000 <= u
        && u <= 0x200A) || u == 0x2028 || u == 0x2029 || u == 0x202F || u == 0x205F || u == 0x3000
}

fn is_digit_char(c: char) -> (r: bool)
    ensures
        r == is_digit(c),
{
    '0' <= c && c <= '9'
}

fn is_word_start_char(c: char) -> (r: bool)
    ensures
        r == is_word_start(c),
{
    ('a' <= c && c <= 'z') || ('A' <= c && c <= 'Z') || c == '_'
}

fn symbol_token(c: char) -> (r: Option<Token>)
    ensures
        r == symbol(c),
{
    match c {
        '{' => Some(Token::LBrace),
        '}' => Some(Token::RBrace),
        '(' => Some(Token::LParen),
        ')' => Some(Token::RParen),
        '[' => Some(Token::LBracket),
        ']' => Some(Token::RBracket),
        ',' => Some(Token::Comma),
        ';' => Some(Token::Semicolon),
        ':' => Some(Token::Colon),
        '.' => Some(Token::Dot),
        '=' => Some(Token::Eq),
        '+' => Some(Token::Plus),
        '-' => Some(Token::Minus),
        '*' => Some(Token::Star),
        '/' => Some(Token::Slash),
        _ => None,
    }
}

/// Whether `w` spells the word `k`.
fn spells(w: &Vec<char>, k: &[char]) -> (r: bool)
    ensures
        r == (w@ == k@),
{
    if w.len() != k.len() {
        return false;
    }
    let mut i: usize = 0;
    while i < w.len()
        invariant
            w@.len() == k@.len(),
            i <= w@.len(),
            forall|j: int| 0 <= j < i ==> w@[j] == k@[j],
        decreases w@.len() - i,
    {
        if w[i] != k[i] {
            return false;
        }
        i += 1;
    }
    assert(w@ =~= k@);
    true
}

fn keyword_token(w: &Vec<char>) -> (r: Option<Token>)
    ensures
        r == keyword(w@),
{
    if spells(w, &['s', 't', 'r', 'u', 'c', 't']) {
        Some(Token::Struct)
    } else if spells(w, &['e', 'f', 'f', 'e', 'c', 't']) {
        Some(Token::Effect)
    } else if spells(w, &['c', 'o', 'n', 's', 't']) {
        Some(Token::Const)
    } else if spells(w, &['i', 'f']) {
        Some(Token::If)
    } else if spells(w, &['e', 'l', 's', 'e']) {
        Some(Token::Else)
    } else if spells(w, &['w', 'h', 'i', 'l', 'e']) {
        Some(Token::While)
    } else if spells(w, &['r', 'e', 't', 'u', 'r', 'n']) {
        Some(Token::Return)
    } else if spells(w, &['p', 'r', 'i', 'n', 't']) {
        Some(Token::Print)
    } else if spells(w, &['i', 'n', 'p', 'u', 't']) {
        Some(Token::Input)
    } else if spells(w, &['p', 'e', 'r', 'f', 'o', 'r', 'm']) {
        Some(Token::Perform)
    } else if spells(w, &['i', '3', '2']) {
        Some(Token::I32)
    } else if spells(w, &['v', 'o', 'i', 'd']) {
        Some(Token::Void)
    } else {
        None
    }
}

/// Splits source text into tokens.
pub struct Lexer {
    chars: Vec<char>,
    pos: usize,
}

impl Lexer {
    /// The characters of the input.
    pub closed spec fn input(&self) -> Seq<char> {
        self.chars@
    }

    /// How far the input has been read.
    pub closed spec fn position(&self) -> nat {
        self.pos as nat
    }

    pub closed spec fn wf(&self) -> bool {
        self.pos <= self.chars@.len() <= usize::MAX
    }

    pub fn new(source: &str) -> (r: Lexer)
        ensures
            r.wf(),
            r.input() == source@,
            r.position() == 0,
    {
        let mut chars: Vec<char> = Vec::new();
        for c in it: source.chars()
            invariant
                chars@ == it.seq().subrange(0, it.index() as int),
        {
            chars.push(c);
            assert(chars@ =~= it.seq().subrange(0, it.index() + 1));
        }
        assert(chars@ == source@);
        let _ = chars.len();
        Lexer { chars, pos: 0 }
    }

    fn next_char(&mut self) -> (r: Option<char>)
        requires
            old(self).wf(),
        ensures
            final(self).wf(),
            final(self).chars@ == old(self).chars@,
            old(self).pos < old(self).chars@.len() ==> r == Some(old(self).chars@[old(self).pos as int])
                && final(self).pos == old(self).pos + 1,
            old(self).pos >= old(self).chars@.len() ==> r is None && final(self).pos == old(self).pos,
    {
        if self.pos < self.chars.len() {
            let c = self.chars[self.pos];
            self.pos += 1;
            Some(c)
        } else {
            None
        }
    }

    fn peek_char(&self) -> (r: Option<char>)
        requires
            self.wf(),
        ensures
            self.pos < self.chars@.len() ==> r == Some(self.chars@[self.pos as int]),
            self.pos >= self.chars@.len() ==> r is None,
    {
        if self.pos < self.chars.len() {
            Some(self.chars[self.pos])
        } else {
            None
        }
    }

    /// Whether the next character is white space.
    fn at_space(&self) -> (r: bool)
        requires
            self.wf(),
        ensures
            r == (self.pos < self.chars@.len() && is_space(self.chars@[self.pos as int])),
    {
        match self.peek_char() {
            Some(c) => is_space_char(c),
            None => false,
        }
    }

    /// Whether the next character is a decimal digit.
    fn at_digit(&self) -> (r: bool)
        requires
            self.wf(),
        ensures
            r == (self.pos < self.chars@.len() && is_digit(self.chars@[self.pos as int])),
    {
        match self.peek_char() {
            Some(c) => is_digit_char(c),
            None => false,
        }
    }

    /// Whether the next character can continue a word.
    fn at_word_char(&self) -> (r: bool)
        requires
            self.wf(),
        ensures
            r == (self.pos < self.chars@.len() && is_word_char(self.chars@[self.pos as int])),
    {
        match self.peek_char() {
            Some(c) => is_word_start_char(c) || is_digit_char(c),
            None => false,
        }
    }

    fn skip_whitespace(&mut self)
        requires
            old(self).wf(),
        ensures
            final(self).wf(),
            final(self).chars@ == old(self).chars@,
            final(self).pos == skip_spaces(old(self).chars@, old(self).pos as nat),
    {
        while self.at_space()
            invariant
                self.wf(),
                self.chars@ == old(self).chars@,
                skip_spaces(self.chars@, self.pos as nat) == skip_spaces(
                    old(self).chars@,
                    old(self).pos as nat,
                ),
            decreases self.chars@.len() - self.pos,
        {
            self.next_char();
        }
    }

    /// Reads the next token. A number too large for 64 bits, and a character that starts
    /// no token, read as `EOF`.
    pub fn next_token(&mut self) -> (t: Token)
        requires
            old(self).wf(),
        ensures
            final(self).wf(),
            final(self).input() == old(self).input(),
            token_at(old(self).input(), old(self).position(), t),
            final(self).position() == token_end(old(self).input(), old(self).position()),
    {
        let ghost chars = self.chars@;
        proof {
            lemma_skip_spaces_bounds(chars, self.pos as nat);
        }
        self.skip_whitespace();
        let start = self.pos;
        let c = match self.next_char() {
            Some(ch) => ch,
            None => return Token::EOF,
        };
        if let Some(t) = symbol_token(c) {
            return t;
        }
        if is_digit_char(c) {
            let mut value: i64 = (c as u32 - '0' as u32) as i64;
            let mut too_large = false;
            proof {
                let first = chars.subrange(start as int, self.pos as int);
                assert(first.drop_last() =~= Seq::<char>::empty());
                assert(first.last() == c);
                assert(first.len() == 1);
                assert(digits_value(first.drop_last()) == 0);
                assert(digits_value(first) == (c as nat - '0' as nat) as nat);
            }
            while self.at_digit()
                invariant
                    self.wf(),
                    self.chars@ == chars,
                    start < self.pos,
                    digits_end(chars, self.pos as nat) == digits_end(chars, start as nat),
                    too_large == (digits_value(chars.subrange(start as int, self.pos as int))
                        > i64::MAX),
                    !too_large ==> value == digits_value(
                        chars.subrange(start as int, self.pos as int),
                    ),
                    0 <= value,
                decreases self.chars@.len() - self.pos,
            {
                let d = self.chars[self.pos];
                let digit = (d as u32 - '0' as u32) as i64;
                let ghost before = chars.subrange(start as int, self.pos as int);
                self.pos += 1;
                proof {
                    assert(chars.subrange(start as int, self.pos as int).drop_last() =~= before);
                }
                if !too_large {
                    if value <= (i64::MAX - digit) / 10 {
                        assert(value * 10 + digit <= i64::MAX) by (nonlinear_arith)
                            requires
                                value <= (i64::MAX - digit) / 10,
                                0 <= digit <= 9,
                        ;
                        value = value * 10 + digit;
                    } else {
                        assert(value * 10 + digit > i64::MAX) by (nonlinear_arith)
                            requires
                                value > (i64::MAX - digit) / 10,
                                0 <= digit <= 9,
                        ;
                        too_large = true;
                    }
                } else {
                    assert(digits_value(before) * 10 + digit >= digits_value(before))
                        by (nonlinear_arith)
                        requires
                            0 <= digit,
                    ;
                }
            }
            proof {
                lemma_run_ends_bounds(chars, start as nat);
            }
            if too_large {
                return Token::EOF;
            }
            return Token::Number(value);
        }
        if is_word_start_char(c) {
            let mut word: Vec<char> = Vec::new();
            word.push(c);
            while self.at_word_char()
                invariant
                    self.wf(),
                    self.chars@ == chars,
                    start < self.pos,
                    word_end(chars, self.pos as nat) == word_end(chars, start as nat),
                    word@ == chars.subrange(start as int, self.pos as int),
                decreases self.chars@.len() - self.pos,
            {
                let ch = self.chars[self.pos];
                word.push(ch);
                self.pos += 1;
                assert(word@ =~= chars.subrange(start as int, self.pos as int));
            }
            if let Some(k) = keyword_token(&word) {
                return k;
            }
            let mut name = String::new();
            let mut i: usize = 0;
            while i < word.len()
                invariant
                    i <= word@.len(),
                    name@ == word@.subrange(0, i as int),
                decreases word@.len() - i,
            {
                push_char(&mut name, word[i]);
                i += 1;
                assert(name@ =~= word@.subrange(0, i as int));
            }
            assert(name@ =~= word@);
            return Token::Ident(name);
        }
        Token::EOF
    }

    /// Reads every token up to and including the first `EOF`.
    pub fn tokenize(&mut self) -> (r: Vec<Token>)
        requires
            old(self).wf(),
        ensures
            final(self).wf(),
            final(self).input() == old(self).input(),
            r@.len() > 0,
            r@.last() == Token::EOF,
            forall|k: int| 0 <= k < r@.len() - 1 ==> !(r@[k] is EOF),
            forall|k: int|
                0 <= k < r@.len() ==> token_at(
                    old(self).input(),
                    token_pos(old(self).input(), old(self).position(), k as nat),
                    #[trigger] r@[k],
                ),
    {
        let ghost chars = self.chars@;
        let ghost start = self.pos as nat;
        let mut tokens: Vec<Token> = Vec::new();
        loop
            invariant
                self.wf(),
                chars == old(self).chars@,
                start == old(self).pos,
                self.chars@ == chars,
                self.pos == token_pos(chars, start, tokens@.len() as nat),
                forall|k: int| 0 <= k < tokens@.len() ==> !(tokens@[k] is EOF),
                forall|k: int|
                    0 <= k < tokens@.len() ==> token_at(
                        chars,
                        token_pos(chars, start, k as nat),
                        #[trigger] tokens@[k],
                    ),
            decreases self.chars@.len() - self.pos,
        {
            let ghost before = self.pos;
            let tok = self.next_token();
            if let Token::EOF = tok {
                tokens.push(tok);
                return tokens;
            }
            proof {
                lemma_token_advances(chars, before as nat, tok);
            }
            tokens.push(tok);
        }
    }
}

/// A token other than `EOF` consumes at least one character.
pub proof fn lemma_token_advances(chars: Seq<char>, pos: nat, t: Token)
    requires
        pos <= chars.len(),
        token_at(chars, pos, t),
        !(t is EOF),
    ensures
        pos < token_end(chars, pos) <= chars.len(),
{
    lemma_skip_spaces_bounds(chars, pos);
    let s = skip_spaces(chars, pos);
    if s < chars.len() {
        lemma_run_ends_bounds(chars, s);
        lemma_run_ends_bounds(chars, s + 1);
    }
}

} // verus!
