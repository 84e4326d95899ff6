use vstd::prelude::*;

use crate::text::push_char;

verus! {

/// The kinds of tokens of PiaRao source text.
#[derive(Clone, Copy, Debug, PartialEq, Eq, Hash, Structural)]
pub enum TokenType {
    EOF,
    OpAdd,
    OpSub,
    OpMul,
    OpDiv,
    OpMod,
    OpPow,
    OpNot,
    OpGt,
    OpLt,
    OpEq,
    OpNe,
    OpGe,
    OpLe,
    Ident,
    LParen,
    RParen,
    Assign,
    Digit,
    SemiColon,
    Comma,
    Dot,
    LBrace,
    RBrace,
    KWLet,
    KWAnd,
    KWOr,
    KWIf,
    KWElse,
    KWFn,
    KWReturn,
    KWThen,
    /// `->`, between the parameters and the body of a lambda.
    Arrow,
    /// A double-quoted string; the token's text is what stands between the quotes.
    StringLiteral,
    /// A `-` that stands where no operand ends, directly before `(` or a digit.
    OpUnarySub,
}

/// A token with its text and the line and column at which the lexer started reading it.
#[derive(Debug)]
pub struct Token {
    pub t: TokenType,
    pub v: String,
    pub l: usize,
    pub c: usize,
}

/// The mathematical form of a token.
pub struct SpecToken {
    pub t: TokenType,
    pub v: Seq<char>,
    pub l: int,
    pub c: int,
}

impl View for Token {
    type V = SpecToken;

    open spec fn view(&self) -> SpecToken {
        SpecToken { t: self.t, v: self.v@, l: self.l as int, c: self.c as int }
    }
}

pub open spec fn tokens_view(ts: Seq<Token>) -> Seq<SpecToken> {
    ts.map_values(|t: Token| t@)
}

/// Why the source text could not be cut into tokens.
#[derive(Debug, PartialEq, Eq, Structural)]
pub enum LexError {
    /// A byte that starts no token, at the given line and column.
    UnexpectedChar { ch: u8, l: usize, c: usize },
    /// The text ended where the lexer still had to read a byte.
    UnexpectedEnd,
}

/// The reading position of the lexer: byte offset, line, column, and the kind of the
/// token read last.
pub struct LexPos {
    pub pos: int,
    pub line: int,
    pub col: int,
    pub prev: Option<TokenType>,
}

pub open spec fn is_ws(b: u8) -> bool {
    b == 32 || b == 9 || b == 10 || b == 12 || b == 13
}

pub open spec fn is_digit(b: u8) -> bool {
    48 <= b <= 57
}

pub open spec fn is_alpha(b: u8) -> bool {
    (65 <= b <= 90) || (97 <= b <= 122)
}

pub open spec fn is_ident_byte(b: u8) -> bool {
    is_alpha(b) || is_digit(b) || b == 95
}

/// `+ - * / % ^ ( ) ; , . { }`: the bytes that make a token of one byte by themselves.
pub open spec fn is_single_op(b: u8) -> bool {
    b == 43 || b == 45 || b == 42 || b == 47 || b == 37 || b == 94 || b == 40 || b == 41 || b
        == 59 || b == 44 || b == 46 || b == 123 || b == 125
}

pub open spec fn single_op_type(b: u8) -> TokenType {
    if b == 43 {
        TokenType::OpAdd
    } else if b == 45 {
        TokenType::OpSub
    } else if b == 42 {
        TokenType::OpMul
    } else if b == 47 {
        TokenType::OpDiv
    } else if b == 37 {
        TokenType::OpMod
    } else if b == 94 {
        TokenType::OpPow
    } else if b == 40 {
        TokenType::LParen
    } else if b == 41 {
        TokenType::RParen
    } else if b == 59 {
        TokenType::SemiColon
    } else if b == 44 {
        TokenType::Comma
    } else if b == 46 {
        TokenType::Dot
    } else if b == 123 {
        TokenType::LBrace
    } else {
        TokenType::RBrace
    }
}

/// `! > < =`: the bytes that make a comparison, negation or assignment token.
pub open spec fn is_relop_start(b: u8) -> bool {
    b == 33 || b == 62 || b == 60 || b == 61
}

/// The kind of the token that such a byte makes alone.
pub open spec fn relop_one_type(b: u8) -> TokenType {
    if b == 33 {
        TokenType::OpNot
    } else if b == 62 {
        TokenType::OpGt
    } else if b == 60 {
        TokenType::OpLt
    } else {
        TokenType::Assign
    }
}

/// The kind of the token that such a byte makes when `=` follows it.
pub open spec fn relop_two_type(b: u8) -> TokenType {
    if b == 33 {
        TokenType::OpNe
    } else if b == 62 {
        TokenType::OpGe
    } else if b == 60 {
        TokenType::OpLe
    } else {
        TokenType::OpEq
    }
}

/// The keywords of the language; any other word is an identifier.
pub open spec fn keyword_type(w: Seq<char>) -> TokenType {
    if w == seq!['l', 'e', 't'] {
        TokenType::KWLet
    } else if w == seq!['a', 'n', 'd'] {
        TokenType::KWAnd
    } else if w == seq!['o', 'r'] {
        TokenType::KWOr
    } else if w == seq!['i', 'f'] {
        TokenType::KWIf
    } else if w == seq!['e', 'l', 's', 'e'] {
        TokenType::KWElse
    } else if w == seq!['f', 'n'] {
        TokenType::KWFn
    } else if w == seq!['r', 'e', 't', 'u', 'r', 'n'] {
        TokenType::KWReturn
    } else if w == seq!['t', 'h', 'e', 'n'] {
        TokenType::KWThen
    } else {
        TokenType::Ident
    }
}

/// Whether a token of this kind can end an operand (so that a `-` after it subtracts).
pub open spec fn ends_operand(t: Option<TokenType>) -> bool {
    match t {
        Some(k) => k == TokenType::Digit || k == TokenType::Ident || k == TokenType::RParen || k
            == TokenType::RBrace || k == TokenType::StringLiteral,
        None => false,
    }
}

/// One step forward. A newline that the step lands on is stepped over too, and starts
/// a new line.
pub open spec fn spec_advance(s: Seq<u8>, p: LexPos) -> LexPos {
    let n = p.pos + 1;
    if n < s.len() && s[n] == 10 {
        LexPos { pos: n + 1, line: p.line + 1, col: 1, prev: p.prev }
    } else if n < s.len() {
        LexPos { pos: n, line: p.line, col: p.col + 1, prev: p.prev }
    } else {
        LexPos { pos: n, line: p.line, col: p.col, prev: p.prev }
    }
}

pub open spec fn lex_wf(s: Seq<u8>, p: LexPos) -> bool {
    &&& 0 <= p.pos <= s.len()
    &&& p.line >= 1
    &&& p.col >= 1
    &&& 2 * p.line + p.col <= p.pos + 3
}

pub open spec fn spec_skip_ws(s: Seq<u8>, p: LexPos) -> LexPos
    decreases s.len() - p.pos,
{
    if 0 <= p.pos < s.len() && is_ws(s[p.pos]) {
        spec_skip_ws(s, spec_advance(s, p))
    } else {
        p
    }
}

/// Reads digits; reading past the end of the text is an error.
pub open spec fn spec_scan_digits(s: Seq<u8>, p: LexPos, acc: Seq<char>) -> Result<
    (Seq<char>, LexPos),
    LexError,
>
    decreases s.len() - p.pos,
{
    if !(0 <= p.pos < s.len()) {
        Err(LexError::UnexpectedEnd)
    } else if is_digit(s[p.pos]) {
        spec_scan_digits(s, spec_advance(s, p), acc.push(s[p.pos] as char))
    } else {
        Ok((acc, p))
    }
}

/// Reads letters, digits and underscores; reading past the end of the text is an error.
pub open spec fn spec_scan_ident(s: Seq<u8>, p: LexPos, acc: Seq<char>) -> Result<
    (Seq<char>, LexPos),
    LexError,
>
    decreases s.len() - p.pos,
{
    if !(0 <= p.pos < s.len()) {
        Err(LexError::UnexpectedEnd)
    } else if is_ident_byte(s[p.pos]) {
        spec_scan_ident(s, spec_advance(s, p), acc.push(s[p.pos] as char))
    } else {
        Ok((acc, p))
    }
}

/// Reads the inside of a string literal up to the closing quote, which it leaves unread.
/// Only ASCII text may stand inside.
pub open spec fn spec_scan_string(s: Seq<u8>, p: LexPos, acc: Seq<char>) -> Result<
    (Seq<char>, LexPos),
    LexError,
>
    decreases s.len() - p.pos,
{
    if !(0 <= p.pos < s.len()) {
        Err(LexError::UnexpectedEnd)
    } else if s[p.pos] == 34 {
        Ok((acc, p))
    } else if s[p.pos] >= 128 {
        Err(
            LexError::UnexpectedChar {
                ch: s[p.pos],
                l: p.line as usize,
                c: p.col as usize,
            },
        )
    } else {
        spec_scan_string(s, spec_advance(s, p), acc.push(s[p.pos] as char))
    }
}

pub open spec fn with_prev(p: LexPos, t: TokenType) -> LexPos {
    LexPos { pos: p.pos, line: p.line, col: p.col, prev: Some(t) }
}

pub open spec fn mk_tok(t: TokenType, v: Seq<char>, l: int, c: int) -> SpecToken {
    SpecToken { t, v, l, c }
}

/// The token that starts at `q`, a position past the whitespace, read at line `l`,
/// column `c` (where the lexer stood before the whitespace).
pub open spec fn spec_token_at(s: Seq<u8>, q: LexPos, l: int, c: int) -> Result<
    (SpecToken, LexPos),
    LexError,
> {
    let b = s[q.pos];
    if is_single_op(b) {
        let q1 = spec_advance(s, q);
        if b == 45 && q1.pos < s.len() && s[q1.pos] == 62 {
            Ok(
                (
                    mk_tok(TokenType::Arrow, seq!['-', '>'], l, c),
                    with_prev(spec_advance(s, q1), TokenType::Arrow),
                ),
            )
        } else if b == 45 && !ends_operand(q.prev) && q1.pos < s.len() && (s[q1.pos] == 40
            || is_digit(s[q1.pos])) {
            Ok(
                (
                    mk_tok(TokenType::OpUnarySub, seq!['-'], l, c),
                    with_prev(q1, TokenType::OpUnarySub),
                ),
            )
        } else {
            Ok(
                (
                    mk_tok(single_op_type(b), seq![b as char], l, c),
                    with_prev(q1, single_op_type(b)),
                ),
            )
        }
    } else if is_relop_start(b) {
        let q1 = spec_advance(s, q);
        if !(q1.pos < s.len()) {
            Err(LexError::UnexpectedEnd)
        } else if s[q1.pos] == 61 {
            Ok(
                (
                    mk_tok(relop_two_type(b), seq![b as char, '='], l, c),
                    with_prev(spec_advance(s, q1), relop_two_type(b)),
                ),
            )
        } else {
            Ok((mk_tok(relop_one_type(b), seq![b as char], l, c), with_prev(q1, relop_one_type(b))))
        }
    } else if is_digit(b) {
        match spec_scan_digits(s, q, seq![]) {
            Ok((w, q2)) => Ok(
                (mk_tok(TokenType::Digit, w, l, c), with_prev(q2, TokenType::Digit)),
            ),
            Err(e) => Err(e),
        }
    } else if is_alpha(b) || b == 95 {
        match spec_scan_ident(s, q, seq![]) {
            Ok((w, q2)) => Ok(
                (mk_tok(keyword_type(w), w, l, c), with_prev(q2, keyword_type(w))),
            ),
            Err(e) => Err(e),
        }
    } else if b == 34 {
        match spec_scan_string(s, spec_advance(s, q), seq![]) {
            Ok((w, q2)) => Ok(
                (
                    mk_tok(TokenType::StringLiteral, w, l, c),
                    with_prev(spec_advance(s, q2), TokenType::StringLiteral),
                ),
            ),
            Err(e) => Err(e),
        }
    } else {
        Err(LexError::UnexpectedChar { ch: b, l: q.line as usize, c: q.col as usize })
    }
}

/// The next token from position `p`: whitespace is skipped first, and when only
/// whitespace is left the token is `EOF`. Each token carries the line and column at
/// which the lexer stood before that whitespace.
pub open spec fn spec_next(s: Seq<u8>, p: LexPos) -> Result<(SpecToken, LexPos), LexError> {
    let q = spec_skip_ws(s, p);
    if q.pos >= s.len() {
        Ok((mk_tok(TokenType::EOF, seq![], p.line, p.col), with_prev(q, TokenType::EOF)))
    } else {
        spec_token_at(s, q, p.line, p.col)
    }
}

pub proof fn lemma_skip_ws(s: Seq<u8>, p: LexPos)
    requires
        lex_wf(s, p),
    ensures
        lex_wf(s, spec_skip_ws(s, p)),
        spec_skip_ws(s, p).pos >= p.pos,
        spec_skip_ws(s, p).prev == p.prev,
        p.pos < s.len() && is_ws(s[p.pos]) ==> spec_skip_ws(s, p).pos > p.pos,
        spec_skip_ws(s, p).pos < s.len() ==> !is_ws(s[spec_skip_ws(s, p).pos]),
    decreases s.len() - p.pos,
{
    if 0 <= p.pos < s.len() && is_ws(s[p.pos]) {
        lemma_skip_ws(s, spec_advance(s, p));
    }
}

pub proof fn lemma_scan_digits(s: Seq<u8>, p: LexPos, acc: Seq<char>)
    requires
        lex_wf(s, p),
    ensures
        spec_scan_digits(s, p, acc) matches Ok((w, q)) ==> lex_wf(s, q) && q.pos >= p.pos
            && q.prev == p.prev && (p.pos < s.len() && is_digit(s[p.pos]) ==> q.pos > p.pos),
    decreases s.len() - p.pos,
{
    if 0 <= p.pos < s.len() && is_digit(s[p.pos]) {
        lemma_scan_digits(s, spec_advance(s, p), acc.push(s[p.pos] as char));
    }
}

pub proof fn lemma_scan_ident(s: Seq<u8>, p: LexPos, acc: Seq<char>)
    requires
        lex_wf(s, p),
    ensures
        spec_scan_ident(s, p, acc) matches Ok((w, q)) ==> lex_wf(s, q) && q.pos >= p.pos
            && q.prev == p.prev && (p.pos < s.len() && is_ident_byte(s[p.pos]) ==> q.pos
            > p.pos),
    decreases s.len() - p.pos,
{
    if 0 <= p.pos < s.len() && is_ident_byte(s[p.pos]) {
        lemma_scan_ident(s, spec_advance(s, p), acc.push(s[p.pos] as char));
    }
}

pub proof fn lemma_scan_string(s: Seq<u8>, p: LexPos, acc: Seq<char>)
    requires
        lex_wf(s, p),
    ensures
        spec_scan_string(s, p, acc) matches Ok((w, q)) ==> lex_wf(s, q) && q.pos >= p.pos
            && q.prev == p.prev && q.pos < s.len(),
    decreases s.len() - p.pos,
{
    if 0 <= p.pos < s.len() && s[p.pos] != 34 && s[p.pos] < 128 {
        lemma_scan_string(s, spec_advance(s, p), acc.push(s[p.pos] as char));
    }
}

/// Reading a token from a position inside the text moves forward and keeps the
/// lexer's position well formed.
pub proof fn lemma_next_progress(s: Seq<u8>, p: LexPos)
    requires
        lex_wf(s, p),
        p.pos < s.len(),
    ensures
        spec_next(s, p) matches Ok((t, q)) ==> lex_wf(s, q) && q.pos > p.pos,
{
    lemma_skip_ws(s, p);
    let q = spec_skip_ws(s, p);
    if q.pos < s.len() {
        let b = s[q.pos];
        if is_digit(b) {
            lemma_scan_digits(s, q, seq![]);
        } else if is_alpha(b) || b == 95 {
            lemma_scan_ident(s, q, seq![]);
        } else if b == 34 {
            lemma_scan_string(s, spec_advance(s, q), seq![]);
        }
    }
}

/// All tokens from position `p` to the end of the text, after those in `acc`.
pub open spec fn spec_tokenize_from(s: Seq<u8>, p: LexPos, acc: Seq<SpecToken>) -> Result<
    Seq<SpecToken>,
    LexError,
>
    decreases s.len() - p.pos,
{
    if !lex_wf(s, p) || p.pos >= s.len() {
        Ok(acc)
    } else {
        match spec_next(s, p) {
            Err(e) => Err(e),
            Ok((t, q)) => {
                proof {
                    lemma_next_progress(s, p);
                }
                spec_tokenize_from(s, q, acc.push(t))
            },
        }
    }
}

pub open spec fn lex_start() -> LexPos {
    LexPos { pos: 0, line: 1, col: 1, prev: None }
}

/// All tokens of a text given as its bytes.
pub open spec fn spec_tokenize(s: Seq<u8>) -> Result<Seq<SpecToken>, LexError> {
    spec_tokenize_from(s, lex_start(), seq![])
}

fn is_ws_byte(b: u8) -> (r: bool)
    ensures
        r == is_ws(b),
{
    b == 32 || b == 9 || b == 10 || b == 12 || b == 13
}

fn is_digit_byte(b: u8) -> (r: bool)
    ensures
        r == is_digit(b),
{
    48 <= b && b <= 57
}

fn is_alpha_byte(b: u8) -> (r: bool)
    ensures
        r == is_alpha(b),
{
    (65 <= b && b <= 90) || (97 <= b && b <= 122)
}

fn ends_operand_exec(t: Option<TokenType>) -> (r: bool)
    ensures
        r == ends_operand(t),
{
    match t {
        Some(k) => k == TokenType::Digit || k == TokenType::Ident || k == TokenType::RParen || k
            == TokenType::RBrace || k == TokenType::StringLiteral,
        None => false,
    }
}

fn single_op_type_exec(b: u8) -> (r: TokenType)
    ensures
        r == single_op_type(b),
{
    if b == 43 {
        TokenType::OpAdd
    } else if b == 45 {
        TokenType::OpSub
    } else if b == 42 {
        TokenType::OpMul
    } else if b == 47 {
        TokenType::OpDiv
    } else if b == 37 {
        TokenType::OpMod
    } else if b == 94 {
        TokenType::OpPow
    } else if b == 40 {
        TokenType::LParen
    } else if b == 41 {
        TokenType::RParen
    } else if b == 59 {
        TokenType::SemiColon
    } else if b == 44 {
        TokenType::Comma
    } else if b == 46 {
        TokenType::Dot
    } else if b == 123 {
        TokenType::LBrace
    } else {
        TokenType::RBrace
    }
}

fn relop_one_type_exec(b: u8) -> (r: TokenType)
    ensures
        r == relop_one_type(b),
{
    if b == 33 {
        TokenType::OpNot
    } else if b == 62 {
        TokenType::OpGt
    } else if b == 60 {
        TokenType::OpLt
    } else {
        TokenType::Assign
    }
}

fn relop_two_type_exec(b: u8) -> (r: TokenType)
    ensures
        r == relop_two_type(b),
{
    if b == 33 {
        TokenType::OpNe
    } else if b == 62 {
        TokenType::OpGe
    } else if b == 60 {
        TokenType::OpLe
    } else {
        TokenType::OpEq
    }
}

fn word_is(w: &Vec<char>, k: &[char]) -> (r: bool)
    ensures
        r == (w@ == k@),
{
    if w.len() != k.len() {
        return false;
    }
    let mut i: usize = 0;
    while i < w.len()
        invariant
            w.len() == k.len(),
            i <= w.len(),
            forall|j: int| 0 <= j < i ==> w@[j] == k@[j],
        decreases w.len() - i,
    {
        if w[i] != k[i] {
            return false;
        }
        i = i + 1;
    }
    assert(w@ =~= k@);
    true
}

fn keyword_type_exec(w: &Vec<char>) -> (r: TokenType)
    ensures
        r == keyword_type(w@),
{
    let kw_let = ['l', 'e', 't'];
    let kw_and = ['a', 'n', 'd'];
    let kw_or = ['o', 'r'];
    let kw_if = ['i', 'f'];
    let kw_else = ['e', 'l', 's', 'e'];
    let kw_fn = ['f', 'n'];
    let kw_return = ['r', 'e', 't', 'u', 'r', 'n'];
    let kw_then = ['t', 'h', 'e', 'n'];
    assert(kw_let@ =~= seq!['l', 'e', 't']);
    assert(kw_and@ =~= seq!['a', 'n', 'd']);
    assert(kw_or@ =~= seq!['o', 'r']);
    assert(kw_if@ =~= seq!['i', 'f']);
    assert(kw_else@ =~= seq!['e', 'l', 's', 'e']);
    assert(kw_fn@ =~= seq!['f', 'n']);
    assert(kw_return@ =~= seq!['r', 'e', 't', 'u', 'r', 'n']);
    assert(kw_then@ =~= seq!['t', 'h', 'e', 'n']);
    if word_is(w, kw_let.as_slice()) {
        TokenType::KWLet
    } else if word_is(w, kw_and.as_slice()) {
        TokenType::KWAnd
    } else if word_is(w, kw_or.as_slice()) {
        TokenType::KWOr
    } else if word_is(w, kw_if.as_slice()) {
        TokenType::KWIf
    } else if word_is(w, kw_else.as_slice()) {
        TokenType::KWElse
    } else if word_is(w, kw_fn.as_slice()) {
        TokenType::KWFn
    } else if word_is(w, kw_return.as_slice()) {
        TokenType::KWReturn
    } else if word_is(w, kw_then.as_slice()) {
        TokenType::KWThen
    } else {
        TokenType::Ident
    }
}

/// Cuts PiaRao source text into tokens.
pub struct Lexer<'a> {
    len: usize,
    s: &'a [u8],
    pos: usize,
    line: usize,
    col: usize,
    prev: Option<TokenType>,
}

impl<'a> Lexer<'a> {
    /// The bytes of the text being read.
    pub closed spec fn bytes(&self) -> Seq<u8> {
        self.s@
    }

    /// Where the lexer stands.
    pub closed spec fn at(&self) -> LexPos {
        LexPos {
            pos: self.pos as int,
            line: self.line as int,
            col: self.col as int,
            prev: self.prev,
        }
    }

    pub closed spec fn wf(&self) -> bool {
        &&& self.len == self.s@.len()
        &&& lex_wf(self.s@, self.at())
    }

    /// A lexer at the start of `src`.
    pub fn new(src: &'a String) -> (r: Self)
        ensures
            r.wf(),
            r.bytes() == vstd::utf8::encode_utf8(src@),
            r.at() == lex_start(),
    {
        let s = src.as_str().as_bytes();
        Self { len: s.len(), s, pos: 0, line: 1, col: 1, prev: None }
    }

    fn advance(&mut self)
        requires
            old(self).wf(),
            old(self).pos < old(self).len,
        ensures
            final(self).wf(),
            final(self).bytes() == old(self).bytes(),
            final(self).at() == spec_advance(old(self).bytes(), old(self).at()),
    {
        self.pos = self.pos + 1;
        if self.pos < self.len {
            if self.s[self.pos] == 10 {
                self.pos = self.pos + 1;
                self.line = self.line + 1;
                self.col = 1;
            } else {
                self.col = self.col + 1;
            }
        }
    }

    fn skip_ws(&mut self)
        requires
            old(self).wf(),
        ensures
            final(self).wf(),
            final(self).bytes() == old(self).bytes(),
            final(self).at() == spec_skip_ws(old(self).bytes(), old(self).at()),
    {
        while self.pos < self.len && is_ws_byte(self.s[self.pos])
            invariant
                self.wf(),
                self.bytes() == old(self).bytes(),
                spec_skip_ws(self.bytes(), self.at()) == spec_skip_ws(
                    old(self).bytes(),
                    old(self).at(),
                ),
            decreases self.len - self.pos,
        {
            self.advance();
        }
    }

    fn scan_digits(&mut self, acc: &mut Vec<char>) -> (r: Result<(), LexError>)
        requires
            old(self).wf(),
        ensures
            final(self).wf(),
            final(self).bytes() == old(self).bytes(),
            match spec_scan_digits(old(self).bytes(), old(self).at(), old(acc)@) {
                Ok((w, q)) => r is Ok && final(acc)@ == w && final(self).at() == q,
                Err(e) => r == Err::<(), LexError>(e),
            },
    {
        loop
            invariant
                self.wf(),
                self.bytes() == old(self).bytes(),
                spec_scan_digits(self.bytes(), self.at(), acc@) == spec_scan_digits(
                    old(self).bytes(),
                    old(self).at(),
                    old(acc)@,
                ),
            decreases self.len - self.pos,
        {
            if self.pos >= self.len {
                return Err(LexError::UnexpectedEnd);
            }
            let b = self.s[self.pos];
            if !is_digit_byte(b) {
                return Ok(());
            }
            acc.push(b as char);
            self.advance();
        }
    }

    fn scan_ident(&mut self, acc: &mut Vec<char>) -> (r: Result<(), LexError>)
        requires
            old(self).wf(),
        ensures
            final(self).wf(),
            final(self).bytes() == old(self).bytes(),
            match spec_scan_ident(old(self).bytes(), old(self).at(), old(acc)@) {
                Ok((w, q)) => r is Ok && final(acc)@ == w && final(self).at() == q,
                Err(e) => r == Err::<(), LexError>(e),
            },
    {
        loop
            invariant
                self.wf(),
                self.bytes() == old(self).bytes(),
                spec_scan_ident(self.bytes(), self.at(), acc@) == spec_scan_ident(
                    old(self).bytes(),
                    old(self).at(),
                    old(acc)@,
                ),
            decreases self.len - self.pos,
        {
            if self.pos >= self.len {
                return Err(LexError::UnexpectedEnd);
            }
            let b = self.s[self.pos];
            if !(is_alpha_byte(b) || is_digit_byte(b) || b == 95) {
                return Ok(());
            }
            acc.push(b as char);
            self.advance();
        }
    }

    fn scan_string(&mut self, acc: &mut Vec<char>) -> (r: Result<(), LexError>)
        requires
            old(self).wf(),
        ensures
            final(self).wf(),
            final(self).bytes() == old(self).bytes(),
            match spec_scan_string(old(self).bytes(), old(self).at(), old(acc)@) {
                Ok((w, q)) => r is Ok && final(acc)@ == w && final(self).at() == q,
                Err(e) => r == Err::<(), LexError>(e),
            },
    {
        loop
            invariant
                self.wf(),
                self.bytes() == old(self).bytes(),
                spec_scan_string(self.bytes(), self.at(), acc@) == spec_scan_string(
                    old(self).bytes(),
                    old(self).at(),
                    old(acc)@,
                ),
            decreases self.len - self.pos,
        {
            if self.pos >= self.len {
                return Err(LexError::UnexpectedEnd);
            }
            let b = self.s[self.pos];
            if b == 34 {
                return Ok(());
            }
            if b >= 128 {
                return Err(LexError::UnexpectedChar { ch: b, l: self.line, c: self.col });
            }
            acc.push(b as char);
            self.advance();
        }
    }

    fn token_at(&mut self, l: usize, c: usize) -> (r: Result<Token, LexError>)
        requires
            old(self).wf(),
            old(self).at().pos < old(self).bytes().len(),
        ensures
            final(self).wf(),
            final(self).bytes() == old(self).bytes(),
            match spec_token_at(old(self).bytes(), old(self).at(), l as int, c as int) {
                Ok((t, q)) => r matches Ok(tk) && tk@ == t && final(self).at() == q,
                Err(e) => r == Err::<Token, LexError>(e),
            },
    {
        let b = self.s[self.pos];
        let mut v = String::new();
        if b == 43 || b == 45 || b == 42 || b == 47 || b == 37 || b == 94 || b == 40 || b == 41
            || b == 59 || b == 44 || b == 46 || b == 123 || b == 125 {
            let prev = self.prev;
            self.advance();
            if b == 45 && self.pos < self.len && self.s[self.pos] == 62 {
                self.advance();
                self.prev = Some(TokenType::Arrow);
                push_char(&mut v, '-');
                push_char(&mut v, '>');
                assert(v@ =~= seq!['-', '>']);
                return Ok(Token { t: TokenType::Arrow, v, l, c });
            }
            let mut t = single_op_type_exec(b);
            if b == 45 && !ends_operand_exec(prev) && self.pos < self.len && (self.s[self.pos]
                == 40 || is_digit_byte(self.s[self.pos])) {
                t = TokenType::OpUnarySub;
            }
            self.prev = Some(t);
            push_char(&mut v, b as char);
            assert(v@ =~= seq![b as char]);
            Ok(Token { t, v, l, c })
        } else if b == 33 || b == 62 || b == 60 || b == 61 {
            push_char(&mut v, b as char);
            self.advance();
            if self.pos >= self.len {
                return Err(LexError::UnexpectedEnd);
            }
            let t;
            if self.s[self.pos] == 61 {
                push_char(&mut v, '=');
                assert(v@ =~= seq![b as char, '=']);
                self.advance();
                t = relop_two_type_exec(b);
            } else {
                assert(v@ =~= seq![b as char]);
                t = relop_one_type_exec(b);
            }
            self.prev = Some(t);
            Ok(Token { t, v, l, c })
        } else if is_digit_byte(b) {
            let mut acc: Vec<char> = Vec::new();
            match self.scan_digits(&mut acc) {
                Ok(()) => {},
                Err(e) => {
                    return Err(e);
                },
            }
            self.prev = Some(TokenType::Digit);
            let v = crate::text::string_from_chars(&acc);
            Ok(Token { t: TokenType::Digit, v, l, c })
        } else if is_alpha_byte(b) || b == 95 {
            let mut acc: Vec<char> = Vec::new();
            match self.scan_ident(&mut acc) {
                Ok(()) => {},
                Err(e) => {
                    return Err(e);
                },
            }
            let t = keyword_type_exec(&acc);
            self.prev = Some(t);
            let v = crate::text::string_from_chars(&acc);
            Ok(Token { t, v, l, c })
        } else if b == 34 {
            self.advance();
            let mut acc: Vec<char> = Vec::new();
            match self.scan_string(&mut acc) {
                Ok(()) => {},
                Err(e) => {
                    return Err(e);
                },
            }
            proof {
                lemma_scan_string(old(self).bytes(), spec_advance(old(self).bytes(), old(self).at()), seq![]);
            }
            self.advance();
            self.prev = Some(TokenType::StringLiteral);
            let v = crate::text::string_from_chars(&acc);
            Ok(Token { t: TokenType::StringLiteral, v, l, c })
        } else {
            Err(LexError::UnexpectedChar { ch: b, l: self.line, c: self.col })
        }
    }

    /// Reads the next token. The lexer must stand inside the text.
    pub fn next(&mut self) -> (r: Result<Token, LexError>)
        requires
            old(self).wf(),
            old(self).at().pos < old(self).bytes().len(),
        ensures
            final(self).wf(),
            final(self).bytes() == old(self).bytes(),
            match spec_next(old(self).bytes(), old(self).at()) {
                Ok((t, q)) => r matches Ok(tk) && tk@ == t && final(self).at() == q,
                Err(e) => r == Err::<Token, LexError>(e),
            },
    {
        let l = self.line;
        let c = self.col;
        self.skip_ws();
        if self.pos >= self.len {
            self.prev = Some(TokenType::EOF);
            return Ok(Token { t: TokenType::EOF, v: String::new(), l, c });
        }
        self.token_at(l, c)
    }

    /// Reads all tokens from where the lexer stands to the end of the text.
    pub fn tokenize(&mut self) -> (r: Result<Vec<Token>, LexError>)
        requires
            old(self).wf(),
        ensures
            final(self).wf(),
            match spec_tokenize_from(old(self).bytes(), old(self).at(), seq![]) {
                Ok(ts) => r matches Ok(v) && tokens_view(v@) == ts,
                Err(e) => r == Err::<Vec<Token>, LexError>(e),
            },
    {
        let mut tokens: Vec<Token> = Vec::new();
        assert(tokens_view(tokens@) =~= seq![]);
        while self.pos < self.len
            invariant
                self.wf(),
                self.bytes() == old(self).bytes(),
                spec_tokenize_from(self.bytes(), self.at(), tokens_view(tokens@))
                    == spec_tokenize_from(old(self).bytes(), old(self).at(), seq![]),
            decreases self.len - self.pos,
        {
            proof {
                lemma_next_progress(self.bytes(), self.at());
            }
            let t = self.next();
            match t {
                Ok(t) => {
                    proof {
                        assert(tokens_view(tokens@.push(t)) =~= tokens_view(tokens@).push(t@));
                    }
                    tokens.push(t);
                },
                Err(e) => {
                    return Err(e);
                },
            }
        }
        Ok(tokens)
    }
}

} // verus!
