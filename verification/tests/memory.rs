use garnet::memory::{describe_kind, parse_memory_decl, parse_type, span_of, MemoryKind, Parser, Token, TokenKind, Type};
use garnet::span::Span;

/// Tokens at consecutive offsets, each one byte long, ending with end-of-input.
fn stream(kinds: Vec<TokenKind>) -> Vec<Token> {
    let mut out = Vec::new();
    let mut at = 0;
    for kind in kinds {
        out.push(Token { kind, span: Span { start: at, len: 1 } });
        at += 2;
    }
    out.push(Token { kind: TokenKind::Eof, span: Span { start: at, len: 0 } });
    out
}

fn ident(s: &str) -> TokenKind {
    TokenKind::Ident(s.to_string())
}

fn names(t: &Type) -> String {
    if t.args.is_empty() {
        t.name.clone()
    } else {
        let inner: Vec<String> = t.args.iter().map(names).collect();
        format!("{}<{}>", t.name, inner.join(", "))
    }
}

#[test]
fn parses_a_plain_memory_declaration() {
    let mut p = Parser::new(stream(vec![TokenKind::KwMemory, TokenKind::KwWorking, ident("scratch"), TokenKind::Colon, ident("String")]));
    let d = parse_memory_decl(&mut p).expect("parses");
    assert_eq!(d.kind, MemoryKind::Working);
    assert_eq!(d.name, "scratch");
    assert_eq!(names(&d.store), "String");
    assert_eq!(d.store.span, Span { start: 8, len: 1 });
    assert_eq!(d.span, Span { start: 0, len: 9 });
    assert!(matches!(p.peek_kind(), TokenKind::Eof));
}

#[test]
fn parses_every_memory_kind() {
    for (kw, kind) in [
        (TokenKind::KwWorking, MemoryKind::Working),
        (TokenKind::KwEpisodic, MemoryKind::Episodic),
        (TokenKind::KwSemantic, MemoryKind::Semantic),
        (TokenKind::KwProcedural, MemoryKind::Procedural),
    ] {
        let mut p = Parser::new(stream(vec![TokenKind::KwMemory, kw, ident("m"), TokenKind::Colon, ident("T")]));
        assert_eq!(parse_memory_decl(&mut p).expect("parses").kind, kind);
    }
    assert_eq!(MemoryKind::Semantic.as_str(), "semantic");
    assert_eq!(MemoryKind::Procedural.as_str(), "procedural");
}

#[test]
fn parses_nested_generic_store_types() {
    // Map<String, List<Int>>
    let mut p = Parser::new(stream(vec![
        ident("Map"),
        TokenKind::Lt,
        ident("String"),
        TokenKind::Comma,
        ident("List"),
        TokenKind::Lt,
        ident("Int"),
        TokenKind::Gt,
        TokenKind::Gt,
    ]));
    let t = parse_type(&mut p).expect("parses");
    assert_eq!(names(&t), "Map<String, List<Int>>");
    assert_eq!(t.span, Span { start: 0, len: 17 });
    assert_eq!(t.args[1].span, Span { start: 8, len: 7 });
    assert!(matches!(p.peek_kind(), TokenKind::Eof));
}

#[test]
fn a_type_stops_before_a_following_token() {
    let mut p = Parser::new(stream(vec![ident("A"), TokenKind::Comma, ident("B")]));
    let t = parse_type(&mut p).expect("parses");
    assert_eq!(names(&t), "A");
    assert!(matches!(p.peek_kind(), TokenKind::Comma));
}

#[test]
fn rejects_a_missing_memory_kind() {
    let mut p = Parser::new(stream(vec![TokenKind::KwMemory, ident("scratch"), TokenKind::Colon, ident("String")]));
    let e = parse_memory_decl(&mut p).unwrap_err();
    assert_eq!(e.expected, "memory kind (`working`, `episodic`, `semantic`, or `procedural`)");
    assert_eq!(e.found, "identifier `scratch`");
    assert_eq!(e.span, Span { start: 2, len: 1 });
}

#[test]
fn rejects_a_declaration_without_the_keyword() {
    let mut p = Parser::new(stream(vec![TokenKind::KwWorking]));
    let e = parse_memory_decl(&mut p).unwrap_err();
    assert_eq!(e.expected, "`memory`");
    assert_eq!(e.found, "`working`");
}

#[test]
fn rejects_a_missing_colon() {
    let mut p = Parser::new(stream(vec![TokenKind::KwMemory, TokenKind::KwEpisodic, ident("log"), ident("String")]));
    let e = parse_memory_decl(&mut p).unwrap_err();
    assert_eq!(e.expected, "`:` before store-type");
    assert_eq!(e.found, "identifier `String`");
}

#[test]
fn rejects_a_missing_unit_name() {
    let mut p = Parser::new(stream(vec![TokenKind::KwMemory, TokenKind::KwEpisodic, TokenKind::Colon]));
    let e = parse_memory_decl(&mut p).unwrap_err();
    assert_eq!(e.expected, "memory unit name");
    assert_eq!(e.found, "`:`");
}

#[test]
fn rejects_unclosed_type_arguments() {
    let mut p = Parser::new(stream(vec![ident("List"), TokenKind::Lt, ident("Int")]));
    let e = parse_type(&mut p).unwrap_err();
    assert_eq!(e.expected, "`>` to close type arguments");
    assert_eq!(e.found, "end of input");
}

#[test]
fn rejects_a_type_that_is_not_a_name() {
    let mut p = Parser::new(stream(vec![TokenKind::Other("42".to_string())]));
    let e = parse_type(&mut p).unwrap_err();
    assert_eq!(e.expected, "type name");
    assert_eq!(e.found, "`42`");
    assert_eq!(e.span, Span { start: 0, len: 1 });
}

#[test]
fn parser_adds_end_of_input_when_missing() {
    let p = Parser::new(vec![Token { kind: ident("x"), span: Span { start: 0, len: 1 } }]);
    assert!(matches!(p.peek_kind(), TokenKind::Ident(_)));
    let mut p = p;
    p.bump();
    assert!(matches!(p.peek_kind(), TokenKind::Eof));
    p.bump();
    assert!(matches!(p.peek_kind(), TokenKind::Eof));
}

#[test]
fn describes_token_kinds() {
    assert_eq!(describe_kind(&ident("x")), "identifier `x`");
    assert_eq!(describe_kind(&TokenKind::Lt), "`<`");
    assert_eq!(describe_kind(&TokenKind::Eof), "end of input");
}

#[test]
fn span_of_is_the_identity() {
    let s = Span { start: 3, len: 4 };
    assert_eq!(span_of(s), s);
}
