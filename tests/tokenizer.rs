use paren_lexer::tokenizer::{LexError, Lexer, Token, TokenType};

/// Reads every token of `input`, as (class, start, end, source).
fn lex_all(input: &str) -> Vec<(&'static str, usize, usize, String)> {
    let mut lexer = Lexer::new(input).unwrap();
    let mut out = Vec::new();
    while let Some(token) = lexer.next() {
        out.push(describe(&token));
    }
    out
}

fn describe(token: &Token) -> (&'static str, usize, usize, String) {
    let class = match token.kind() {
        TokenType::LeftParen => "(",
        TokenType::RightParen => ")",
        TokenType::Identifier(_) => "ident",
    };
    (class, token.span().start(), token.span().end(), token.source().to_string())
}

fn tok(class: &'static str, start: usize, end: usize, source: &str) -> (&'static str, usize, usize, String) {
    (class, start, end, source.to_string())
}

#[test]
fn test_lexer() {
    let input = "  ( one two )  ";
    println!("String: \"{}\"", input);
    let mut lexer = Lexer::new(input).unwrap();

    while let Some(token) = lexer.next() {
        println!("{:?}", token);
    }
}

#[test]
fn lexer_sample_tokens() {
    assert_eq!(
        lex_all("  ( one two )  "),
        vec![
            tok("(", 2, 3, "("),
            tok("ident", 4, 7, "one"),
            tok("ident", 8, 11, "two"),
            tok(")", 12, 13, ")"),
        ]
    );
}

#[test]
fn ascii_input_is_accepted() {
    assert!(Lexer::new("(define x \t\n 42)~").is_ok());
    assert!(Lexer::new("").is_ok());
}

#[test]
fn non_ascii_input_is_rejected() {
    assert_eq!(Lexer::new("café").err(), Some(LexError::NonAsciiInput));
    assert_eq!(Lexer::new("(λ)").err(), Some(LexError::NonAsciiInput));
    assert_eq!(Lexer::new("abc\u{80}").err(), Some(LexError::NonAsciiInput));
}

#[test]
fn two_parens() {
    assert_eq!(lex_all("()"), vec![tok("(", 0, 1, "("), tok(")", 1, 2, ")")]);
}

#[test]
fn identifier_swallows_following_paren() {
    assert_eq!(lex_all("(a)"), vec![tok("(", 0, 1, "("), tok("ident", 1, 2, "a")]);
}

#[test]
fn spaced_identifiers() {
    assert_eq!(
        lex_all("  one two  "),
        vec![tok("ident", 2, 5, "one"), tok("ident", 6, 9, "two")]
    );
}

#[test]
fn empty_input_has_no_tokens() {
    let mut lexer = Lexer::new("").unwrap();
    assert!(lexer.next().is_none());
}

#[test]
fn tab_is_an_empty_identifier() {
    assert_eq!(lex_all("\t("), vec![tok("ident", 0, 0, ""), tok("(", 1, 2, "(")]);
}

#[test]
fn identifier_name_matches_source() {
    let mut lexer = Lexer::new("hello").unwrap();
    let token = lexer.next().unwrap();
    match token.kind() {
        TokenType::Identifier(id) => assert_eq!(id.as_str(), "hello"),
        _ => panic!("expected an identifier"),
    }
    assert_eq!(token.source(), "hello");
    assert!(lexer.next().is_none());
}

#[test]
fn digit_ends_identifier_and_is_dropped() {
    assert_eq!(lex_all("a1b"), vec![tok("ident", 0, 1, "a"), tok("ident", 2, 3, "b")]);
}

#[test]
fn adjacent_identifier_start_is_dropped() {
    assert_eq!(lex_all("one(two"), vec![tok("ident", 0, 3, "one"), tok("ident", 4, 7, "two")]);
}

#[test]
fn only_spaces_has_no_tokens() {
    assert!(lex_all("     ").is_empty());
}

#[test]
fn exhausted_lexer_stays_exhausted() {
    let mut lexer = Lexer::new("(x) ").unwrap();
    let mut count = 0;
    while lexer.next().is_some() {
        count += 1;
    }
    assert_eq!(count, 2);
    for _ in 0..5 {
        assert!(lexer.next().is_none());
    }
}

#[test]
fn spans_advance_and_do_not_overlap() {
    let tokens = lex_all(" (ab (c)) d ( e)(  ");
    assert!(!tokens.is_empty());
    for pair in tokens.windows(2) {
        assert!(pair[0].1 < pair[1].1);
        assert!(pair[0].2 <= pair[1].1);
    }
}

#[test]
fn source_is_the_text_under_the_span() {
    let input = "( alpha (beta)  gamma) x\ty ";
    for (_, start, end, source) in lex_all(input) {
        assert!(start <= end && end <= input.len());
        assert_eq!(&input[start..end], source);
    }
}

#[test]
fn delimiters_are_one_character() {
    for (class, start, end, source) in lex_all("(()) ( ) )(") {
        if class == "(" || class == ")" {
            assert_eq!(end, start + 1);
            assert_eq!(source, class);
        }
    }
}
