use sip_it::{run, scan_fits, Lexer, Position, Token, TokenType};

fn tokens_of(text: &str) -> Vec<Token> {
    let (tokens, err) = run("<test>", text);
    assert!(err.is_none(), "unexpected error on {:?}", text);
    tokens
}

fn renders_of(text: &str) -> Vec<String> {
    tokens_of(text).iter().map(|t| t.render()).collect()
}

#[test]
fn empty_input_yields_nothing() {
    let (tokens, err) = run("<stdin>", "");
    assert!(tokens.is_empty());
    assert!(err.is_none());
}

#[test]
fn whitespace_only_yields_nothing() {
    for text in [" ", "   ", "\t", "\n", "\r\n", " \t\n  ", "\u{a0}\u{2003}\u{3000}"] {
        let (tokens, err) = run("<stdin>", text);
        assert!(tokens.is_empty(), "tokens on {:?}", text);
        assert!(err.is_none(), "error on {:?}", text);
    }
}

#[test]
fn int_literal_value() {
    let tokens = tokens_of("42");
    assert_eq!(tokens.len(), 1);
    assert_eq!(tokens[0].type_, TokenType::Int(42));
}

#[test]
fn float_literal_value() {
    let tokens = tokens_of("3.14");
    assert_eq!(tokens.len(), 1);
    match &tokens[0].type_ {
        TokenType::Float(lit) => {
            assert_eq!(lit, "3.14");
            assert_eq!(lit.parse::<f64>().unwrap(), 3.14f64);
        }
        other => panic!("expected a decimal literal, got {:?}", other),
    }
}

#[test]
fn expression_scenario() {
    assert_eq!(
        renders_of("3 + 4 * (2 - 1)"),
        vec![
            "INT(3)",
            "PLUS",
            "INT(4)",
            "MULTIPLY",
            "LEFT-PAREN",
            "INT(2)",
            "MINUS",
            "INT(1)",
            "RPAREN"
        ]
    );
}

#[test]
fn illegal_char_scenario() {
    let (tokens, err) = run("<stdin>", "5 $ 3");
    assert!(tokens.is_empty());
    let err = err.expect("expected an error");
    assert_eq!(err.render(), "Illegal Char Error: $\nFile <stdin>, line 1");
    assert_eq!(err.type_, "Illegal Char Error");
    assert_eq!(err.details, "$");
    assert_eq!(err.pos_start.idx, 2);
    assert_eq!(err.pos_end.idx, 3);
}

#[test]
fn second_dot_is_illegal() {
    let (tokens, err) = run("<stdin>", "1.2.3");
    assert!(tokens.is_empty());
    let err = err.expect("expected an error on the second dot");
    assert_eq!(err.details, ".");
    assert_eq!(err.pos_start.idx, 3);
    assert_eq!(err.render(), "Illegal Char Error: .\nFile <stdin>, line 1");
}

#[test]
fn prefix_of_second_dot_input_is_a_float() {
    let tokens = tokens_of("1.2");
    assert_eq!(tokens.len(), 1);
    assert_eq!(tokens[0].type_, TokenType::Float(String::from("1.2")));
}

#[test]
fn newline_line_tracking() {
    let (tokens, err) = run("<stdin>", "1 + 1\n2 $ 2");
    assert!(tokens.is_empty());
    let err = err.expect("expected an error");
    assert_eq!(err.pos_start.ln, 1);
    assert_eq!(err.pos_start.idx, 8);
    assert_eq!(err.pos_start.col, 2);
    assert_eq!(err.pos_end.idx, 9);
    assert_eq!(err.pos_end.col, 3);
    assert_eq!(err.render(), "Illegal Char Error: $\nFile <stdin>, line 2");
}

#[test]
fn symbol_renderings() {
    assert_eq!(
        renders_of("+ - * / ( )"),
        vec!["PLUS", "MINUS", "MULTIPLY", "DIVIDE", "LEFT-PAREN", "RPAREN"]
    );
}

#[test]
fn int_render_roundtrip() {
    for n in [0i64, 7, 42, 1000000, 9223372036854775807] {
        let text = n.to_string();
        let tokens = tokens_of(&text);
        assert_eq!(tokens[0].render(), format!("INT({})", n));
        let reparsed = tokens_of(&text[..]);
        assert_eq!(reparsed[0].type_, TokenType::Int(n));
    }
}

#[test]
fn float_render_roundtrip() {
    let tokens = tokens_of("2.5");
    let rendered = tokens[0].render();
    assert_eq!(rendered, "FLOAT(2.5)");
    let payload = &rendered["FLOAT(".len()..rendered.len() - 1];
    assert_eq!(payload.parse::<f64>().unwrap(), "2.5".parse::<f64>().unwrap());
}

#[test]
fn leading_zeros_are_part_of_the_value() {
    let tokens = tokens_of("007");
    assert_eq!(tokens[0].type_, TokenType::Int(7));
    assert_eq!(tokens[0].render(), "INT(7)");
}

#[test]
fn trailing_dot_makes_a_float() {
    let tokens = tokens_of("3.");
    assert_eq!(tokens[0].type_, TokenType::Float(String::from("3.")));
    assert_eq!(tokens[0].render(), "FLOAT(3.)");
}

#[test]
fn negative_int_token_renders_with_sign() {
    let t = Token::new(TokenType::Int(-5));
    assert_eq!(t.render(), "INT(-5)");
}

#[test]
fn largest_int_fits_and_one_more_does_not() {
    assert!(scan_fits("9223372036854775807"));
    let tokens = tokens_of("9223372036854775807");
    assert_eq!(tokens[0].type_, TokenType::Int(i64::MAX));
    assert!(!scan_fits("9223372036854775808"));
    assert!(scan_fits("9223372036854775808.0"));
    assert!(scan_fits("$ 9223372036854775808"));
}

#[test]
fn position_advance_tracks_lines_and_columns() {
    let mut p = Position::new(-1, 0, -1, "<x>", "a\nb");
    p.advance(None);
    assert_eq!((p.idx, p.ln, p.col), (0, 0, 0));
    p.advance(Some('a'));
    assert_eq!((p.idx, p.ln, p.col), (1, 0, 1));
    p.advance(Some('\n'));
    assert_eq!((p.idx, p.ln, p.col), (2, 1, 0));
    let snap = p.copy();
    p.advance(Some('b'));
    assert_eq!((p.idx, p.ln, p.col), (3, 1, 1));
    assert_eq!((snap.idx, snap.ln, snap.col), (2, 1, 0));
    assert_eq!(snap.fn_name, "<x>");
    assert_eq!(snap.ftxt, "a\nb");
}

#[test]
fn lexer_starts_on_the_first_character() {
    let lx = Lexer::new("<x>", "ab");
    assert_eq!(lx.pos.idx, 0);
    assert_eq!(lx.current_char, Some('a'));
    let empty = Lexer::new("<x>", "");
    assert_eq!(empty.current_char, None);
}

#[test]
fn error_discards_earlier_tokens() {
    let (tokens, err) = run("<stdin>", "1 + 2 ? 3");
    assert!(tokens.is_empty());
    let err = err.expect("expected an error");
    assert_eq!(err.details, "?");
}

#[test]
fn error_positions_carry_source_name_and_text() {
    let (_, err) = run("prog.calc", "@");
    let err = err.expect("expected an error");
    assert_eq!(err.pos_start.fn_name, "prog.calc");
    assert_eq!(err.pos_start.ftxt, "@");
    assert_eq!(err.pos_end.idx, err.pos_start.idx + 1);
    assert_eq!(err.render(), "Illegal Char Error: @\nFile prog.calc, line 1");
}

#[test]
fn leading_dot_is_illegal() {
    let (tokens, err) = run("<stdin>", ".5");
    assert!(tokens.is_empty());
    let err = err.expect("expected an error: a number must start with a digit");
    assert_eq!(err.details, ".");
    assert_eq!(err.pos_start.idx, 0);
}

#[test]
fn unicode_whitespace_separates_tokens() {
    assert_eq!(renders_of("\u{1680}1\u{2028}+\u{202f}2"), vec!["INT(1)", "PLUS", "INT(2)"]);
}

#[test]
fn numbers_bind_tighter_than_symbols() {
    assert_eq!(renders_of("12+34.5/6"), vec![
        "INT(12)",
        "PLUS",
        "FLOAT(34.5)",
        "DIVIDE",
        "INT(6)"
    ]);
}
