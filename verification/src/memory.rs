//! Memory unit declarations and store types.
//!
//! ```text
//! memory-decl  := "memory" memory-kind ident ":" store-type
//! memory-kind  := "working" | "episodic" | "semantic" | "procedural"
//! store-type   := ident ("<" type-args ">")?
//! type-args    := store-type ("," store-type)*
//! ```
//!
//! The parser reads a token stream that ends with an end-of-input token; it
//! never moves past that token.

use vstd::prelude::*;
use vstd::string::*;
use crate::span::Span;

verus! {

// ---------------------------------------------------------------------------
// Tokens
// ---------------------------------------------------------------------------

/// The kinds of token the grammar reads.
#[derive(Debug)]
pub enum TokenKind {
    KwMemory,
    KwWorking,
    KwEpisodic,
    KwSemantic,
    KwProcedural,
    Ident(String),
    Colon,
    Lt,
    Gt,
    Comma,
    Eof,
    /// Any other token, by its text.
    Other(String),
}

/// A token and where it stands.
#[derive(Debug)]
pub struct Token {
    pub kind: TokenKind,
    pub span: Span,
}

/// The variant of a token kind, as a number.
pub open spec fn tag(k: TokenKind) -> nat {
    match k {
        TokenKind::KwMemory => 0,
        TokenKind::KwWorking => 1,
        TokenKind::KwEpisodic => 2,
        TokenKind::KwSemantic => 3,
        TokenKind::KwProcedural => 4,
        TokenKind::Ident(_) => 5,
        TokenKind::Colon => 6,
        TokenKind::Lt => 7,
        TokenKind::Gt => 8,
        TokenKind::Comma => 9,
        TokenKind::Eof => 10,
        TokenKind::Other(_) => 11,
    }
}

/// Two token kinds are the same: the same variant with the same text.
pub open spec fn same_kind(a: TokenKind, b: TokenKind) -> bool {
    match (a, b) {
        (TokenKind::Ident(x), TokenKind::Ident(y)) => x@ == y@,
        (TokenKind::Other(x), TokenKind::Other(y)) => x@ == y@,
        _ => tag(a) == tag(b),
    }
}

/// How an error message names a token kind.
pub open spec fn describe(k: TokenKind) -> Seq<char> {
    match k {
        TokenKind::KwMemory => "`memory`"@,
        TokenKind::KwWorking => "`working`"@,
        TokenKind::KwEpisodic => "`episodic`"@,
        TokenKind::KwSemantic => "`semantic`"@,
        TokenKind::KwProcedural => "`procedural`"@,
        TokenKind::Ident(n) => "identifier `"@ + n@ + "`"@,
        TokenKind::Colon => "`:`"@,
        TokenKind::Lt => "`<`"@,
        TokenKind::Gt => "`>`"@,
        TokenKind::Comma => "`,`"@,
        TokenKind::Eof => "end of input"@,
        TokenKind::Other(t) => "`"@ + t@ + "`"@,
    }
}

/// Names a token kind for an error message.
pub fn describe_kind(k: &TokenKind) -> (r: String)
    ensures
        r@ == describe(*k),
{
    match k {
        TokenKind::KwMemory => "`memory`".to_owned(),
        TokenKind::KwWorking => "`working`".to_owned(),
        TokenKind::KwEpisodic => "`episodic`".to_owned(),
        TokenKind::KwSemantic => "`semantic`".to_owned(),
        TokenKind::KwProcedural => "`procedural`".to_owned(),
        TokenKind::Ident(n) => {
            let mut r = "identifier `".to_owned();
            r.append(n.as_str());
            r.append("`");
            r
        },
        TokenKind::Colon => "`:`".to_owned(),
        TokenKind::Lt => "`<`".to_owned(),
        TokenKind::Gt => "`>`".to_owned(),
        TokenKind::Comma => "`,`".to_owned(),
        TokenKind::Eof => "end of input".to_owned(),
        TokenKind::Other(t) => {
            let mut r = "`".to_owned();
            r.append(t.as_str());
            r.append("`");
            r
        },
    }
}

/// Whether two token kinds are the same.
fn kinds_equal(a: &TokenKind, b: &TokenKind) -> (r: bool)
    ensures
        r == same_kind(*a, *b),
{
    match (a, b) {
        (TokenKind::Ident(x), TokenKind::Ident(y)) => crate::text::str_eq(x.as_str(), y.as_str()),
        (TokenKind::Other(x), TokenKind::Other(y)) => crate::text::str_eq(x.as_str(), y.as_str()),
        (TokenKind::KwMemory, TokenKind::KwMemory) => true,
        (TokenKind::KwWorking, TokenKind::KwWorking) => true,
        (TokenKind::KwEpisodic, TokenKind::KwEpisodic) => true,
        (TokenKind::KwSemantic, TokenKind::KwSemantic) => true,
        (TokenKind::KwProcedural, TokenKind::KwProcedural) => true,
        (TokenKind::Colon, TokenKind::Colon) => true,
        (TokenKind::Lt, TokenKind::Lt) => true,
        (TokenKind::Gt, TokenKind::Gt) => true,
        (TokenKind::Comma, TokenKind::Comma) => true,
        (TokenKind::Eof, TokenKind::Eof) => true,
        _ => false,
    }
}

/// A token's span can be ended without overflow.
pub open spec fn span_ok(s: Span) -> bool {
    s.start + s.len <= usize::MAX
}

/// The span covering two spans.
pub open spec fn join_spec(a: Span, b: Span) -> Span {
    let start = if a.start <= b.start { a.start } else { b.start };
    let end = if a.start + a.len >= b.start + b.len { a.start + a.len } else { b.start + b.len };
    Span { start, len: (end - start) as usize }
}

/// Joins two spans.
fn join_spans(a: Span, b: Span) -> (r: Span)
    requires
        span_ok(a),
        span_ok(b),
    ensures
        r == join_spec(a, b),
        span_ok(r),
{
    a.join(b)
}

/// A parse error: what was expected, what was found, and where.
#[derive(Debug)]
pub struct ParseError {
    pub expected: String,
    pub found: String,
    pub span: Span,
}

/// A parse error as plain values.
pub open spec fn err_view(e: ParseError) -> (Seq<char>, Seq<char>, Span) {
    (e.expected@, e.found@, e.span)
}

/// The error for an unexpected token `t` where `expected` was wanted.
pub open spec fn unexpected(expected: Seq<char>, t: Token) -> (Seq<char>, Seq<char>, Span) {
    (expected, describe(t.kind), t.span)
}

impl ParseError {
    /// The error for an unexpected token.
    pub fn unexpected_token(expected: &str, found: String, span: Span) -> (r: ParseError)
        ensures
            err_view(r) == (expected@, found@, span),
    {
        ParseError { expected: expected.to_owned(), found, span }
    }
}

// ---------------------------------------------------------------------------
// The parser
// ---------------------------------------------------------------------------

/// A token stream and the position of the next token.
#[derive(Debug)]
pub struct Parser {
    tokens: Vec<Token>,
    pos: usize,
}

/// A well-formed stream: it ends with end-of-input and its spans can be
/// ended without overflow.
pub open spec fn stream_ok(toks: Seq<Token>) -> bool {
    &&& toks.len() >= 1
    &&& toks.last().kind is Eof
    &&& forall|i: int| 0 <= i < toks.len() ==> span_ok(#[trigger] toks[i].span)
}

/// The position after `pos`; end-of-input is never passed.
pub open spec fn next_pos(toks: Seq<Token>, pos: int) -> int {
    if pos + 1 < toks.len() {
        pos + 1
    } else {
        pos
    }
}

/// A copy of a token.
fn copy_token(t: &Token) -> (r: Token)
    ensures
        same_kind(r.kind, t.kind),
        tag(r.kind) == tag(t.kind),
        describe(r.kind) == describe(t.kind),
        r.span == t.span,
{
    let kind = match &t.kind {
        TokenKind::KwMemory => TokenKind::KwMemory,
        TokenKind::KwWorking => TokenKind::KwWorking,
        TokenKind::KwEpisodic => TokenKind::KwEpisodic,
        TokenKind::KwSemantic => TokenKind::KwSemantic,
        TokenKind::KwProcedural => TokenKind::KwProcedural,
        TokenKind::Ident(n) => TokenKind::Ident(n.clone()),
        TokenKind::Colon => TokenKind::Colon,
        TokenKind::Lt => TokenKind::Lt,
        TokenKind::Gt => TokenKind::Gt,
        TokenKind::Comma => TokenKind::Comma,
        TokenKind::Eof => TokenKind::Eof,
        TokenKind::Other(x) => TokenKind::Other(x.clone()),
    };
    Token { kind, span: t.span }
}

impl Parser {
    /// The stream is well formed and the position is on a token.
    pub closed spec fn wf(&self) -> bool {
        stream_ok(self.tokens@) && self.pos < self.tokens@.len()
    }

    /// The tokens.
    pub closed spec fn toks(&self) -> Seq<Token> {
        self.tokens@
    }

    /// The position of the next token.
    pub closed spec fn at(&self) -> int {
        self.pos as int
    }

    /// A parser at the start of `tokens`; an end-of-input token is added at
    /// the end when the stream lacks one.
    pub fn new(tokens: Vec<Token>) -> (r: Parser)
        requires
            forall|i: int| 0 <= i < tokens@.len() ==> span_ok(#[trigger] tokens@[i].span),
        ensures
            r.wf(),
            r.at() == 0,
            r.toks() == if tokens@.len() > 0 && tokens@.last().kind is Eof {
                tokens@
            } else {
                tokens@.push(Token { kind: TokenKind::Eof, span: Span { start: 0, len: 0 } })
            },
    {
        let mut tokens = tokens;
        let n = tokens.len();
        let ends = n > 0 && match tokens[n - 1].kind {
            TokenKind::Eof => true,
            _ => false,
        };
        if !ends {
            tokens.push(Token { kind: TokenKind::Eof, span: Span { start: 0, len: 0 } });
        }
        Parser { tokens, pos: 0 }
    }

    /// The next token.
    pub fn peek(&self) -> (r: &Token)
        requires
            self.wf(),
        ensures
            *r == self.toks()[self.at()],
    {
        &self.tokens[self.pos]
    }

    /// The kind of the next token.
    pub fn peek_kind(&self) -> (r: &TokenKind)
        requires
            self.wf(),
        ensures
            *r == self.toks()[self.at()].kind,
    {
        &self.tokens[self.pos].kind
    }

    /// Moves past the next token, unless it is end-of-input.
    pub fn bump(&mut self)
        requires
            old(self).wf(),
        ensures
            final(self).wf(),
            final(self).toks() == old(self).toks(),
            final(self).at() == next_pos(old(self).toks(), old(self).at()),
    {
        if self.pos < self.tokens.len() - 1 {
            self.pos = self.pos + 1;
        }
    }

    /// Moves past the next token when it is of kind `k`.
    pub fn eat(&mut self, k: &TokenKind) -> (r: bool)
        requires
            old(self).wf(),
        ensures
            final(self).wf(),
            final(self).toks() == old(self).toks(),
            r == same_kind(old(self).toks()[old(self).at()].kind, *k),
            final(self).at() == if r { next_pos(old(self).toks(), old(self).at()) } else { old(self).at() },
    {
        if kinds_equal(&self.tokens[self.pos].kind, k) {
            self.bump();
            true
        } else {
            false
        }
    }

    /// Moves past the next token when it is of kind `k` and gives it back;
    /// else the error that `what` was expected.
    pub fn expect(&mut self, k: &TokenKind, what: &str) -> (r: Result<Token, ParseError>)
        requires
            old(self).wf(),
        ensures
            final(self).wf(),
            final(self).toks() == old(self).toks(),
            ({
                let t = old(self).toks()[old(self).at()];
                match r {
                    Ok(tok) => same_kind(t.kind, *k) && tok.span == t.span && final(self).at() == next_pos(old(self).toks(), old(self).at()),
                    Err(e) => !same_kind(t.kind, *k) && err_view(e) == unexpected(what@, t) && final(self).at() == old(self).at(),
                }
            }),
    {
        if kinds_equal(&self.tokens[self.pos].kind, k) {
            let t = copy_token(&self.tokens[self.pos]);
            self.bump();
            Ok(t)
        } else {
            let t = &self.tokens[self.pos];
            Err(ParseError::unexpected_token(what, describe_kind(&t.kind), t.span))
        }
    }

    /// Moves past an identifier and gives back its text and span; else the
    /// error that `what` was expected.
    pub fn expect_ident(&mut self, what: &str) -> (r: Result<(String, Span), ParseError>)
        requires
            old(self).wf(),
        ensures
            final(self).wf(),
            final(self).toks() == old(self).toks(),
            ({
                let t = old(self).toks()[old(self).at()];
                match r {
                    Ok((name, span)) => (t.kind matches TokenKind::Ident(n) && n@ == name@) && span == t.span
                        && final(self).at() == next_pos(old(self).toks(), old(self).at()),
                    Err(e) => !(t.kind is Ident) && err_view(e) == unexpected(what@, t) && final(self).at() == old(self).at(),
                }
            }),
    {
        match &self.tokens[self.pos].kind {
            TokenKind::Ident(n) => {
                let name = n.clone();
                let span = self.tokens[self.pos].span;
                self.bump();
                Ok((name, span))
            },
            other => {
                let t = &self.tokens[self.pos];
                Err(ParseError::unexpected_token(what, describe_kind(other), t.span))
            },
        }
    }
}

// ---------------------------------------------------------------------------
// The grammar
// ---------------------------------------------------------------------------

/// A store type: a name with optional type arguments.
#[derive(Debug)]
pub struct Type {
    pub name: String,
    pub args: Vec<Type>,
    pub span: Span,
}

/// The four memory kinds.
#[derive(Debug, Clone, Copy, PartialEq, Eq, Structural)]
pub enum MemoryKind {
    Working,
    Episodic,
    Semantic,
    Procedural,
}

/// The keyword of a memory kind.
pub open spec fn kind_text(k: MemoryKind) -> Seq<char> {
    match k {
        MemoryKind::Working => "working"@,
        MemoryKind::Episodic => "episodic"@,
        MemoryKind::Semantic => "semantic"@,
        MemoryKind::Procedural => "procedural"@,
    }
}

impl MemoryKind {
    /// The keyword of the kind.
    pub fn as_str(&self) -> (r: &'static str)
        ensures
            r@ == kind_text(*self),
    {
        match self {
            MemoryKind::Working => "working",
            MemoryKind::Episodic => "episodic",
            MemoryKind::Semantic => "semantic",
            MemoryKind::Procedural => "procedural",
        }
    }
}

/// A memory unit declaration.
#[derive(Debug)]
pub struct MemoryDecl {
    pub kind: MemoryKind,
    pub name: String,
    pub store: Type,
    pub span: Span,
}

/// The memory kind a keyword token names.
pub open spec fn kind_of_token(k: TokenKind) -> Option<MemoryKind> {
    match k {
        TokenKind::KwWorking => Some(MemoryKind::Working),
        TokenKind::KwEpisodic => Some(MemoryKind::Episodic),
        TokenKind::KwSemantic => Some(MemoryKind::Semantic),
        TokenKind::KwProcedural => Some(MemoryKind::Procedural),
        _ => None,
    }
}

/// Where the store type starting at `pos` ends, or the error reading it.
pub open spec fn type_end(toks: Seq<Token>, pos: int) -> Result<int, (Seq<char>, Seq<char>, Span)>
    decreases toks.len() - pos, 0int,
    when stream_ok(toks) && 0 <= pos < toks.len()
{
    let t = toks[pos];
    if !(t.kind is Ident) {
        Err(unexpected("type name"@, t))
    } else {
        let q = next_pos(toks, pos);
        if toks[q].kind is Lt {
            match args_end(toks, next_pos(toks, q)) {
                Err(e) => Err(e),
                Ok(m) => if toks[m].kind is Gt {
                    Ok(next_pos(toks, m))
                } else {
                    Err(unexpected("`>` to close type arguments"@, toks[m]))
                },
            }
        } else {
            Ok(q)
        }
    }
}

/// Where the type arguments starting at `pos` end (before the `>`), or the
/// error reading them.
pub open spec fn args_end(toks: Seq<Token>, pos: int) -> Result<int, (Seq<char>, Seq<char>, Span)>
    decreases toks.len() - pos, 1int,
    when stream_ok(toks) && 0 <= pos < toks.len()
{
    match type_end(toks, pos) {
        Err(e) => Err(e),
        Ok(m) => if 0 <= m < toks.len() && m > pos && toks[m].kind is Comma {
            args_end(toks, next_pos(toks, m))
        } else {
            Ok(m)
        },
    }
}

/// The tokens from `pos` up to `end` spell the store type `t`, read
/// greedily: a name takes type arguments whenever `<` follows it.
pub open spec fn spells_type(toks: Seq<Token>, pos: int, end: int, t: Type) -> bool
    decreases t,
{
    &&& 0 <= pos < end < toks.len()
    &&& toks[pos].kind matches TokenKind::Ident(n) && n@ == t.name@
    &&& if t.args@.len() == 0 {
        &&& end == pos + 1
        &&& !(toks[end].kind is Lt)
        &&& t.span == toks[pos].span
    } else {
        &&& toks[pos + 1].kind is Lt
        &&& toks[end - 1].kind is Gt
        &&& spells_args(toks, pos + 2, end - 1, t.args@)
        &&& t.span == join_spec(toks[pos].span, toks[end - 1].span)
    }
}

/// The number of tokens a store type spells.
pub open spec fn type_len(t: Type) -> int
    decreases t,
{
    if t.args@.len() == 0 {
        1
    } else {
        args_len(t.args@) + 3
    }
}

/// The number of tokens comma-separated arguments spell.
pub open spec fn args_len(args: Seq<Type>) -> int
    decreases args,
{
    if args.len() == 0 {
        0
    } else if args.len() == 1 {
        type_len(args[0])
    } else {
        args_len(args.subrange(0, args.len() - 1)) + 1 + type_len(args[args.len() - 1])
    }
}

/// The tokens from `pos` up to `end` spell the comma-separated `args`: the
/// last argument follows the last comma.
pub open spec fn spells_args(toks: Seq<Token>, pos: int, end: int, args: Seq<Type>) -> bool
    decreases args,
{
    if args.len() == 0 {
        false
    } else if args.len() == 1 {
        spells_type(toks, pos, end, args[0])
    } else {
        let mid = end - type_len(args[args.len() - 1]) - 1;
        &&& spells_args(toks, pos, mid, args.subrange(0, args.len() - 1))
        &&& toks[mid].kind is Comma
        &&& spells_type(toks, mid + 1, end, args[args.len() - 1])
    }
}

/// A spelled type covers exactly its token count.
proof fn lemma_type_len(toks: Seq<Token>, pos: int, end: int, t: Type)
    requires
        spells_type(toks, pos, end, t),
    ensures
        end == pos + type_len(t),
    decreases t,
{
    if t.args@.len() > 0 {
        lemma_args_len(toks, pos + 2, end - 1, t.args@);
    }
}

/// Spelled arguments cover exactly their token count.
proof fn lemma_args_len(toks: Seq<Token>, pos: int, end: int, args: Seq<Type>)
    requires
        spells_args(toks, pos, end, args),
    ensures
        end == pos + args_len(args),
    decreases args,
{
    if args.len() == 1 {
        lemma_type_len(toks, pos, end, args[0]);
    } else if args.len() > 1 {
        let mid = end - type_len(args[args.len() - 1]) - 1;
        lemma_args_len(toks, pos, mid, args.subrange(0, args.len() - 1));
        lemma_type_len(toks, mid + 1, end, args[args.len() - 1]);
    }
}

/// One more argument after a comma extends a spelled argument list.
proof fn lemma_spells_args_push(toks: Seq<Token>, pos: int, mid: int, end: int, args: Seq<Type>, t: Type)
    requires
        args.len() >= 1,
        spells_args(toks, pos, mid, args),
        toks[mid].kind is Comma,
        spells_type(toks, mid + 1, end, t),
    ensures
        spells_args(toks, pos, end, args.push(t)),
{
    lemma_type_len(toks, mid + 1, end, t);
    let a2 = args.push(t);
    assert(a2.subrange(0, a2.len() - 1) =~= args);
    assert(a2[a2.len() - 1] == t);
}

/// The spans of a type can be ended without overflow.
pub open spec fn type_spans_ok(t: Type) -> bool {
    span_ok(t.span)
}

/// A spelled type starts at a name and ends before end-of-input.
proof fn lemma_spells_range(toks: Seq<Token>, pos: int, end: int, t: Type)
    requires
        spells_type(toks, pos, end, t),
    ensures
        pos < end,
{
}

/// Parses a store type: a name, optionally followed by `<` type arguments
/// separated by commas and closed by `>`.
pub fn parse_type(p: &mut Parser) -> (r: Result<Type, ParseError>)
    requires
        old(p).wf(),
    ensures
        final(p).wf(),
        final(p).toks() == old(p).toks(),
        match (r, type_end(old(p).toks(), old(p).at())) {
            (Ok(t), Ok(e)) => final(p).at() == e && spells_type(old(p).toks(), old(p).at(), e, t) && span_ok(t.span),
            (Err(x), Err(v)) => err_view(x) == v,
            _ => false,
        },
    decreases old(p).toks().len() - old(p).at(),
{
    let ghost toks = p.toks();
    let ghost pos0 = p.at();
    proof {
        reveal_strlit("type name");
    }
    let (name, name_span) = match p.expect_ident("type name") {
        Ok(x) => x,
        Err(e) => {
            return Err(e);
        },
    };
    assert(toks[pos0].span == name_span);
    assert(span_ok(toks[pos0].span));
    let is_lt = match p.peek_kind() {
        TokenKind::Lt => true,
        _ => false,
    };
    if !is_lt {
        return Ok(Type { name, args: Vec::new(), span: name_span });
    }
    p.bump();
    let ghost start = p.at();
    assert(start == pos0 + 2);
    let mut args: Vec<Type> = Vec::new();
    loop
        invariant_except_break
            p.wf(),
            p.toks() == toks,
            toks == old(p).toks(),
            pos0 == old(p).at(),
            stream_ok(toks),
            0 <= pos0,
            toks[pos0].kind is Ident,
            toks[pos0 + 1].kind is Lt,
            pos0 + 1 < toks.len(),
            start == pos0 + 2,
            start <= p.at() < toks.len(),
            args_end(toks, start) == args_end(toks, p.at()),
            args@.len() == 0 ==> p.at() == start,
            args@.len() > 0 ==> toks[p.at() - 1].kind is Comma && spells_args(toks, start, p.at() - 1, args@),
        ensures
            p.wf(),
            p.toks() == toks,
            toks == old(p).toks(),
            pos0 == old(p).at(),
            start < p.at() < toks.len(),
            args_end(toks, start) == Ok::<int, (Seq<char>, Seq<char>, Span)>(p.at()),
            !(toks[p.at()].kind is Comma),
            spells_args(toks, start, p.at(), args@),
        decreases toks.len() - p.at(),
    {
        let ghost cur = p.at();
        let ghost a0 = args@;
        let arg = match parse_type(p) {
            Ok(a) => a,
            Err(e) => {
                proof {
                    assert(args_end(toks, cur) == Err::<int, (Seq<char>, Seq<char>, Span)>(err_view(e)));
                    assert(next_pos(toks, pos0) == pos0 + 1);
                    assert(next_pos(toks, pos0 + 1) == start);
                    assert(args_end(toks, start) == Err::<int, (Seq<char>, Seq<char>, Span)>(err_view(e)));
                    assert(stream_ok(toks) && 0 <= pos0 < toks.len());
                    assert(toks[pos0].kind is Ident);
                    assert(toks[next_pos(toks, pos0)].kind is Lt);
                    assert(type_end(toks, pos0) == Err::<int, (Seq<char>, Seq<char>, Span)>(err_view(e)));
                }
                return Err(e);
            },
        };
        let ghost m = p.at();
        proof {
            lemma_spells_range(toks, cur, m, arg);
        }
        args.push(arg);
        proof {
            if a0.len() == 0 {
                assert(args@ =~= seq![arg]);
                assert(cur == start);
                assert(args@.len() == 1);
                assert(spells_type(toks, cur, m, arg));
                assert(spells_type(toks, start, m, args@[0]));
            } else {
                assert(args@.subrange(0, args@.len() - 1) =~= a0);
                assert(args@[args@.len() - 1] == arg);
                assert(spells_args(toks, start, cur - 1, a0));
                assert(spells_args(toks, start, cur - 1, args@.subrange(0, args@.len() - 1)));
                assert(toks[cur - 1].kind is Comma);
                assert(spells_type(toks, cur - 1 + 1, m, args@[args@.len() - 1]));
                lemma_spells_args_push(toks, start, cur - 1, m, a0, arg);
                assert(a0.push(arg) =~= args@);
            }
            assert(spells_args(toks, start, m, args@));
        }
        if !p.eat(&TokenKind::Comma) {
            break;
        }
        assert(toks[m].kind is Comma);
    }
    let ghost m = p.at();
    proof {
        reveal_strlit("`>` to close type arguments");
    }
    let close = match p.expect(&TokenKind::Gt, "`>` to close type arguments") {
        Ok(t) => t,
        Err(e) => {
            return Err(e);
        },
    };
    assert(close.span == toks[m].span);
    let span = join_spans(name_span, close.span);
    let t = Type { name, args, span };
    proof {
        assert(toks[m].kind is Gt);
        assert(m + 1 < toks.len());
        assert(spells_type(toks, pos0, m + 1, t));
    }
    Ok(t)
}

/// Where the memory declaration at `pos` reads its parts: its kind, the
/// position of its name, and where its store type starts and ends; or the
/// error reading it.
pub open spec fn decl_result(toks: Seq<Token>, pos: int) -> Result<(MemoryKind, int, int, int), (Seq<char>, Seq<char>, Span)> {
    let t0 = toks[pos];
    let p1 = next_pos(toks, pos);
    let p2 = next_pos(toks, p1);
    let p3 = next_pos(toks, p2);
    let p4 = next_pos(toks, p3);
    if !(t0.kind is KwMemory) {
        Err(unexpected("`memory`"@, t0))
    } else if kind_of_token(toks[p1].kind) is None {
        Err(unexpected("memory kind (`working`, `episodic`, `semantic`, or `procedural`)"@, toks[p1]))
    } else if !(toks[p2].kind is Ident) {
        Err(unexpected("memory unit name"@, toks[p2]))
    } else if !(toks[p3].kind is Colon) {
        Err(unexpected("`:` before store-type"@, toks[p3]))
    } else {
        match type_end(toks, p4) {
            Err(e) => Err(e),
            Ok(e) => Ok((kind_of_token(toks[p1].kind)->0, p2, p4, e)),
        }
    }
}

/// Parses a memory kind keyword.
fn parse_memory_kind(p: &mut Parser) -> (r: Result<MemoryKind, ParseError>)
    requires
        old(p).wf(),
    ensures
        final(p).wf(),
        final(p).toks() == old(p).toks(),
        ({
            let t = old(p).toks()[old(p).at()];
            match r {
                Ok(k) => kind_of_token(t.kind) == Some(k) && final(p).at() == next_pos(old(p).toks(), old(p).at()),
                Err(e) => kind_of_token(t.kind) is None && err_view(e) == unexpected(
                    "memory kind (`working`, `episodic`, `semantic`, or `procedural`)"@,
                    t,
                ),
            }
        }),
{
    let k = match p.peek_kind() {
        TokenKind::KwWorking => Some(MemoryKind::Working),
        TokenKind::KwEpisodic => Some(MemoryKind::Episodic),
        TokenKind::KwSemantic => Some(MemoryKind::Semantic),
        TokenKind::KwProcedural => Some(MemoryKind::Procedural),
        _ => None,
    };
    match k {
        Some(k) => {
            p.bump();
            Ok(k)
        },
        None => {
            let t = p.peek();
            Err(ParseError::unexpected_token(
                "memory kind (`working`, `episodic`, `semantic`, or `procedural`)",
                describe_kind(&t.kind),
                t.span,
            ))
        },
    }
}

/// Parses `memory <kind> <name> : <store-type>`.
pub fn parse_memory_decl(p: &mut Parser) -> (r: Result<MemoryDecl, ParseError>)
    requires
        old(p).wf(),
    ensures
        final(p).wf(),
        final(p).toks() == old(p).toks(),
        ({
            let toks = old(p).toks();
            let pos = old(p).at();
            match (r, decl_result(toks, pos)) {
                (Ok(d), Ok((k, np, sp, e))) => d.kind == k && (toks[np].kind matches TokenKind::Ident(n) && n@ == d.name@)
                    && spells_type(toks, sp, e, d.store) && d.span == join_spec(toks[pos].span, d.store.span)
                    && final(p).at() == e,
                (Err(x), Err(v)) => err_view(x) == v,
                _ => false,
            }
        }),
{
    let ghost toks = p.toks();
    proof {
        reveal_strlit("`memory`");
        reveal_strlit("memory unit name");
        reveal_strlit("`:` before store-type");
    }
    let mem_tok = match p.expect(&TokenKind::KwMemory, "`memory`") {
        Ok(t) => t,
        Err(e) => {
            return Err(e);
        },
    };
    let kind = match parse_memory_kind(p) {
        Ok(k) => k,
        Err(e) => {
            return Err(e);
        },
    };
    let (name, _) = match p.expect_ident("memory unit name") {
        Ok(x) => x,
        Err(e) => {
            return Err(e);
        },
    };
    match p.expect(&TokenKind::Colon, "`:` before store-type") {
        Ok(_) => {},
        Err(e) => {
            return Err(e);
        },
    }
    let store = match parse_type(p) {
        Ok(t) => t,
        Err(e) => {
            return Err(e);
        },
    };
    proof {
        assert(span_ok(mem_tok.span));
    }
    let span = join_spans(mem_tok.span, store.span);
    Ok(MemoryDecl { kind, name, store, span })
}

/// The span itself: lets callers share the span of a closing token.
pub fn span_of(s: Span) -> (r: Span)
    ensures
        r == s,
{
    s
}

} // verus!
