use lc3_toolchain::assembler::lexer::{lex, LexError, Token, TokenKind};

#[test]
fn test_lex_basic() {
    let kinds: Vec<TokenKind> =
        lex(".orig x3000").unwrap().into_iter().map(|token| token.kind).collect();
    assert_eq!(kinds, vec![TokenKind::Directive("orig".to_string()), TokenKind::Number(0x3000)]);
}

#[test]
fn comments_on_lines_of_their_own() {
    let input = r#"
            ;;; comment
            .orig x3000 ; .comment #7
            ; comment
        "#;
    assert_eq!(
        lex(input),
        Ok(vec![
            Token::newline(0),
            Token::newline(24),
            Token::directive("orig", 37),
            Token::number(0x3000, 43),
            Token::newline(62),
            Token::newline(84),
        ])
    );
}

#[test]
fn test_ignores_whitespace() {
    assert_eq!(lex(" \n\r\t"), Ok(vec![Token::newline(1)]));
}

#[test]
fn test_ignores_comments() {
    assert_eq!(lex("; this is a comment"), Ok(vec![]));
    assert_eq!(
        lex(".directive ; this is a comment"),
        Ok(vec![Token::directive("directive", 0)])
    );
    assert_eq!(
        lex(".label\n ; this is a comment"),
        Ok(vec![Token::directive("label", 0), Token::newline(6)])
    );
}

#[test]
fn test_continues_after_comments() {
    assert_eq!(
        lex("; a\n.directive"),
        Ok(vec![Token::newline(3), Token::directive("directive", 4)])
    );
}

#[test]
fn test_lex_directive() {
    assert_eq!(lex(".directive"), Ok(vec![Token::directive("directive", 0)]));
    assert_eq!(lex("    .directive"), Ok(vec![Token::directive("directive", 4)]));
    assert_eq!(
        lex("\n.directive"),
        Ok(vec![Token::newline(0), Token::directive("directive", 1)])
    );
    assert_eq!(
        lex(".d1\n.d2"),
        Ok(vec![Token::directive("d1", 0), Token::newline(3), Token::directive("d2", 4)])
    );
}

#[test]
fn test_lex_symbol() {
    assert_eq!(lex("sym"), Ok(vec![Token::symbol("sym", 0)]));
    assert_eq!(
        lex("s1\ns2"),
        Ok(vec![Token::symbol("s1", 0), Token::newline(2), Token::symbol("s2", 3)])
    );
}

#[test]
fn lexer_test_lex_hex() {
    assert_eq!(lex("x0"), Ok(vec![Token::number(0, 0)]));
    assert_eq!(lex("xFFFF"), Ok(vec![Token::number(0xFFFF, 0)]));
    assert_eq!(
        lex("xG"),
        Err(LexError {
            message: "invalid hex literal 'xG': invalid digit found in string".to_string(),
            line: 0,
            character: 1,
        })
    );
}

#[test]
fn lexer_test_lex_decimal() {
    assert_eq!(lex("#0"), Ok(vec![Token::number(0, 0)]));
    assert_eq!(lex("#1000"), Ok(vec![Token::number(1000, 0)]));
    assert_eq!(lex("#-1"), Ok(vec![Token::number(0b1111_1111_1111_1111, 0)]));
    assert_eq!(
        lex("#G"),
        Err(LexError {
            message: "invalid decimal literal 'G': invalid digit found in string".to_string(),
            line: 0,
            character: 1,
        })
    );
}

#[test]
fn test_lex_strings() {
    assert_eq!(lex("\"hello\""), Ok(vec![Token::str("hello", 0)]));
}

#[test]
fn test_real_asm() {
    assert_eq!(
        lex(".orig x3000"),
        Ok(vec![Token::directive("orig", 0), Token::number(0x3000, 6)])
    );
    assert_eq!(
        lex("	.FILL BAD_INT	; x01"),
        Ok(vec![Token::directive("FILL", 1), Token::symbol("BAD_INT", 7)])
    );
    assert_eq!(
        lex("LD R0, MPR_INIT"),
        Ok(vec![
            Token::symbol("LD", 0),
            Token::symbol("R0", 3),
            Token::comma(5),
            Token::symbol("MPR_INIT", 7)
        ])
    );
    assert_eq!(
        lex("mystring .STRINGZ \"hello\""),
        Ok(vec![
            Token::symbol("mystring", 0),
            Token::directive("STRINGZ", 9),
            Token::str("hello", 18)
        ])
    );
}

#[test]
fn token_builders_hold_what_they_are_given() {
    assert_eq!(
        Token::new(TokenKind::Comma, 7),
        Token { kind: TokenKind::Comma, offset: 7 }
    );
    assert_eq!(
        Token::directive("orig", 1),
        Token { kind: TokenKind::Directive("orig".to_string()), offset: 1 }
    );
    assert_eq!(
        Token::symbol("loop", 2),
        Token { kind: TokenKind::Symbol("loop".to_string()), offset: 2 }
    );
    assert_eq!(Token::number(9, 3), Token { kind: TokenKind::Number(9), offset: 3 });
    assert_eq!(Token::str("hi", 4), Token { kind: TokenKind::Str("hi".to_string()), offset: 4 });
    assert_eq!(Token::newline(5), Token { kind: TokenKind::Newline, offset: 5 });
    assert_eq!(Token::comma(6), Token { kind: TokenKind::Comma, offset: 6 });
    assert_eq!(Token::symbol("a", 0).clone(), Token::symbol("a", 0));
}

#[test]
fn hex_literals_round_trip() {
    for value in [0u16, 1, 9, 10, 15, 16, 0x00FF, 0x0100, 0x3000, 0x7FFF, 0x8000, 0xABCD, 0xFFFF] {
        assert_eq!(lex(&format!("x{:04X}", value)), Ok(vec![Token::number(value, 0)]));
        assert_eq!(lex(&format!("x{:x}", value)), Ok(vec![Token::number(value, 0)]));
    }
}

#[test]
fn decimal_literals_round_trip() {
    for value in [0u16, 1, 9, 10, 1000, 32767, 32768, 65535] {
        assert_eq!(lex(&format!("#{}", value)), Ok(vec![Token::number(value, 0)]));
        assert_eq!(lex(&format!("{}", value)), Ok(vec![Token::number(value, 0)]));
    }
}

#[test]
fn negative_decimals_are_twos_complement() {
    assert_eq!(lex("#-1"), lex("#65535"));
    assert_eq!(lex("#-2"), lex("#65534"));
    assert_eq!(lex("#-32768"), lex("#32768"));
    assert_eq!(lex("#-65535"), lex("#1"));
    assert_eq!(lex("#-0"), Ok(vec![Token::number(0, 0)]));
    assert_eq!(lex("-16"), Ok(vec![Token::number(0xFFF0, 0)]));
}

#[test]
fn literals_that_leave_sixteen_bits_fail() {
    assert_eq!(
        lex("x10000"),
        Err(LexError {
            message: "invalid hex literal 'x10000': number too large to fit in target type"
                .to_string(),
            line: 0,
            character: 5,
        })
    );
    assert_eq!(
        lex("#65536"),
        Err(LexError {
            message: "invalid decimal literal '65536': number too large to fit in target type"
                .to_string(),
            line: 0,
            character: 5,
        })
    );
}

#[test]
fn literals_without_digits_fail() {
    assert_eq!(
        lex("x"),
        Err(LexError {
            message: "invalid hex literal 'x': cannot parse integer from empty string".to_string(),
            line: 0,
            character: 0,
        })
    );
    assert_eq!(
        lex(".fill #"),
        Err(LexError {
            message: "invalid decimal literal '': cannot parse integer from empty string"
                .to_string(),
            line: 0,
            character: 6,
        })
    );
    assert_eq!(
        lex("\n-"),
        Err(LexError {
            message: "invalid decimal literal '': cannot parse integer from empty string"
                .to_string(),
            line: 1,
            character: 0,
        })
    );
}

#[test]
fn error_points_at_the_first_invalid_character() {
    assert_eq!(
        lex("x0g"),
        Err(LexError {
            message: "invalid hex literal 'x0g': invalid digit found in string".to_string(),
            line: 0,
            character: 2,
        })
    );
    assert_eq!(
        lex("xg0"),
        Err(LexError {
            message: "invalid hex literal 'xg0': invalid digit found in string".to_string(),
            line: 0,
            character: 1,
        })
    );
    assert_eq!(
        lex(".fill x1\n.fill #12a4"),
        Err(LexError {
            message: "invalid decimal literal '12a4': invalid digit found in string".to_string(),
            line: 1,
            character: 9,
        })
    );
    assert_eq!(
        lex("#-9z"),
        Err(LexError {
            message: "invalid decimal literal '9z': invalid digit found in string".to_string(),
            line: 0,
            character: 3,
        })
    );
}

#[test]
fn unexpected_character_fails() {
    assert_eq!(
        lex("!"),
        Err(LexError { message: "unexpected char !".to_string(), line: 0, character: 0 })
    );
    assert_eq!(
        lex(".fill\nadd @"),
        Err(LexError { message: "unexpected char @".to_string(), line: 1, character: 4 })
    );
}

#[test]
fn comments_are_transparent() {
    assert_eq!(lex(".orig x3000 ; comment"), lex(".orig x3000"));
    assert_eq!(lex(".orig x3000 ; comment"), lex(".orig x3000 "));
    assert_eq!(lex("add r1, r2, r3;not r1, r1"), lex("add r1, r2, r3"));
    assert_eq!(lex("a\nb ;; c ; d"), lex("a\nb "));
    assert_eq!(
        lex("a ;c\nb"),
        Ok(vec![Token::symbol("a", 0), Token::newline(4), Token::symbol("b", 5)])
    );
    assert_eq!(lex("\"a;b\""), Ok(vec![Token::str("a;b", 0)]));
    assert_eq!(lex("a ;c\nb"), lex("a   \nb"));
    assert_eq!(lex("x1;\n;;\n.fill xg ; c"), lex("x1 \n  \n.fill xg    "));
    assert_eq!(lex("\"a\" ;\"\n!"), lex("\"a\"   \n!"));
}

#[test]
fn newlines_are_tokens() {
    assert_eq!(
        lex("\n\n\n"),
        Ok(vec![Token::newline(0), Token::newline(1), Token::newline(2)])
    );
    assert_eq!(
        lex("a\nb\n"),
        Ok(vec![Token::symbol("a", 0), Token::newline(1), Token::symbol("b", 2), Token::newline(3)])
    );
}

#[test]
fn line_end_behind_white_space_is_a_token() {
    assert_eq!(
        lex("a \nb"),
        Ok(vec![Token::symbol("a", 0), Token::newline(2), Token::symbol("b", 3)])
    );
    assert_eq!(
        lex("a\r\nb"),
        Ok(vec![Token::symbol("a", 0), Token::newline(2), Token::symbol("b", 3)])
    );
    assert_eq!(
        lex(" \t\n \n\n\t"),
        Ok(vec![Token::newline(2), Token::newline(4), Token::newline(5)])
    );
    assert_eq!(lex("\u{a0}\n\u{2003}"), Ok(vec![Token::newline(1)]));
}

#[test]
fn white_space_within_a_line_is_skipped() {
    assert_eq!(lex(" \r\t\u{b}\u{c}\u{a0}"), Ok(vec![]));
    assert_eq!(lex(""), Ok(vec![]));
}

#[test]
fn error_line_counts_every_line_feed() {
    assert_eq!(
        lex("a \n\"\n\"\n !"),
        Err(LexError { message: "unexpected char !".to_string(), line: 3, character: 1 })
    );
}

#[test]
fn strings_keep_their_content() {
    assert_eq!(lex("\"\""), Ok(vec![Token::str("", 0)]));
    assert_eq!(lex("\"a b\\n\" x1"), Ok(vec![Token::str("a b\\n", 0), Token::number(1, 8)]));
    assert_eq!(lex("\"open"), Ok(vec![Token::str("open", 0)]));
    assert_eq!(lex("\"two\nlines\""), Ok(vec![Token::str("two\nlines", 0)]));
}

#[test]
fn symbols_take_underscores() {
    assert_eq!(lex("a_b1 _"), Err(LexError {
        message: "unexpected char _".to_string(),
        line: 0,
        character: 5,
    }));
    assert_eq!(lex("A_1,B"), Ok(vec![
        Token::symbol("A_1", 0),
        Token::comma(3),
        Token::symbol("B", 4),
    ]));
}

#[test]
fn symbol_that_starts_with_x_is_a_hex_literal() {
    assert_eq!(
        lex("xyz"),
        Err(LexError {
            message: "invalid hex literal 'xyz': invalid digit found in string".to_string(),
            line: 0,
            character: 1,
        })
    );
    assert_eq!(lex("Xyz"), Ok(vec![Token::symbol("Xyz", 0)]));
}

#[test]
fn characters_beyond_ascii_are_classed_by_unicode() {
    // U+00A0 is white space, U+00E9 a letter, U+0663 a number that is no digit
    assert_eq!(lex("\u{a0}a\u{a0}"), Ok(vec![Token::symbol("a", 1)]));
    assert_eq!(lex("\u{e9}t\u{e9}"), Ok(vec![Token::symbol("\u{e9}t\u{e9}", 0)]));
    assert_eq!(lex(".\u{e9}1"), Ok(vec![Token::directive("\u{e9}1", 0)]));
    assert_eq!(
        lex("\u{663}"),
        Err(LexError {
            message: "invalid decimal literal '\u{663}': invalid digit found in string"
                .to_string(),
            line: 0,
            character: 0,
        })
    );
    assert_eq!(
        lex("\u{2603}"),
        Err(LexError { message: "unexpected char \u{2603}".to_string(), line: 0, character: 0 })
    );
}

#[test]
fn offsets_count_characters() {
    assert_eq!(
        lex("\"\u{e9}\u{e9}\" b"),
        Ok(vec![Token::str("\u{e9}\u{e9}", 0), Token::symbol("b", 5)])
    );
}

#[test]
fn pretty_shows_the_line_and_a_caret() {
    let source = ".orig x3000\n\t.fill xG1 ; bad\n.end";
    let error = lex(source).unwrap_err();
    assert_eq!(
        error,
        LexError {
            message: "invalid hex literal 'xG1': invalid digit found in string".to_string(),
            line: 1,
            character: 8,
        }
    );
    assert_eq!(
        error.pretty("bad.asm", source),
        "bad.asm:1:8\n\nlex error: invalid hex literal 'xG1': invalid digit found in string\n\
         1 |  .fill xG1 ; bad\n            ^ invalid hex literal 'xG1': invalid digit found in string"
    );
}

#[test]
fn pretty_drops_the_carriage_return() {
    let error = LexError { message: "m".to_string(), line: 12, character: 0 };
    let source = "0\n1\n2\n3\n4\n5\n6\n7\n8\n9\n10\n11\ntwelve\r\n13";
    assert_eq!(error.pretty("f", source), "f:12:0\n\nlex error: m\n12 | twelve\n     ^ m");
}

#[test]
fn pretty_of_a_line_that_is_not_there() {
    let error = LexError { message: "m".to_string(), line: 3, character: 2 };
    assert_eq!(error.pretty("f", "a\nb"), "f:3:2\n\nlex error: m\n3 | \n      ^ m");
}
