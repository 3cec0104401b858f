use elucid::language::lexer::{tokenizer, Token};
use elucid::language::span::Span;

#[test]
fn numeric_tokens_preserve_exact_source_values_and_byte_spans() {
    let source = "18446744073709551615 0.1 1e-2";
    let tokens = tokenizer(source);

    assert_eq!(
        tokens,
        vec![
            (Token::Integer(u64::MAX), Span::new(0..20)),
            (Token::FloatingPoint("0.1".to_owned()), Span::new(21..24)),
            (Token::FloatingPoint("1e-2".to_owned()), Span::new(25..29)),
        ]
    );
}

#[test]
fn json_strings_are_decoded_without_changing_their_byte_spans() {
    let source = r#""ошибка\n""#;
    let tokens = tokenizer(source);

    assert_eq!(
        tokens,
        vec![(
            Token::StringLiteral("ошибка\n".to_owned()),
            Span::new(0..source.len()),
        )]
    );
}

#[test]
fn out_of_domain_numeric_tokens_are_rejected_at_the_lexical_boundary() {
    for source in ["18446744073709551616", "1e400"] {
        assert_eq!(
            tokenizer(source),
            vec![(Token::Error, Span::new(0..source.len()))]
        );
    }
}

#[test]
fn the_longest_token_is_taken() {
    let kinds: Vec<Token> = tokenizer("source sources @h @ == = >= > != `as` 0.5e+3 01")
        .into_iter()
        .map(|(token, _)| token)
        .collect();
    assert_eq!(
        kinds,
        vec![
            Token::KeywordSource,
            Token::Identifier("sources".to_owned()),
            Token::SystemIdentifier("@h".to_owned()),
            Token::At,
            Token::OperatorEqual,
            Token::OperatorAssign,
            Token::OperatorGreaterThanOrEqual,
            Token::OperatorGreaterThan,
            Token::OperatorNotEqual,
            Token::QuotedIdentifier("as".to_owned()),
            Token::FloatingPoint("0.5e+3".to_owned()),
            Token::Integer(1),
        ]
    );
}

#[test]
fn what_begins_no_token_is_invalid() {
    assert_eq!(
        tokenizer("é!\"a"),
        vec![
            (Token::Error, Span::new(0..2)),
            (Token::Error, Span::new(2..3)),
            (Token::Error, Span::new(3..4)),
            (Token::Identifier("a".to_owned()), Span::new(4..5)),
        ]
    );
    assert_eq!(tokenizer("\"\\ud800\"")[0].0, Token::Error);
    assert_eq!(tokenizer(" \t\r\n\u{c}"), vec![]);
}

#[test]
fn tokens_are_shown_as_they_are_spelled() {
    for word in ["summarize", "start_inclusive", "try_cast", "uint64", "|", "<=", "*"] {
        let tokens = tokenizer(word);
        assert_eq!(tokens.len(), 1);
        assert_eq!(tokens[0].0.to_string(), word);
        assert_eq!(tokens[0].0.fixed_spelling(), word);
    }
    assert_eq!(Token::Error.to_string(), "<invalid token>");
    assert_eq!(Token::Integer(7).to_string(), "7");
    assert_eq!(Token::StringLiteral(String::new()).to_string(), "<string literal>");
    assert_eq!(Token::Integer(7).fixed_spelling(), "<dynamic token>");
    assert_eq!(Span::new(3..14).to_string(), "3..14");
}
