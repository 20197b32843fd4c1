use lc3_toolchain::assembler::lexer::{lex, Token};
use lc3_toolchain::assembler::parser::{parse, ParseError, Parser};

#[test]
fn test_bad_directive() {
    assert_eq!(
        parse(vec![Token::directive(".bad", 0)]),
        Err(ParseError { message: String::from("unrecognized directive: .bad") }),
    );
}

#[test]
fn fill_with_number() {
    assert_eq!(parse(vec![Token::directive("fill", 0), Token::number(10, 0)]), Ok(vec![10]));
}

#[test]
fn fill_without_literal() {
    assert_eq!(
        parse(vec![Token::directive("fill", 0), Token::comma(0)]),
        Err(ParseError { message: String::from("expected a number") })
    )
}

#[test]
fn fill_without_next_token() {
    assert_eq!(
        parse(vec![Token::directive("fill", 0)]),
        Err(ParseError { message: String::from("unexpected end of input") })
    )
}

#[test]
fn stringz_with_string_literal() {
    assert_eq!(
        parse(vec![Token::directive("stringz", 0), Token::str("a", 0)]),
        Ok(vec![97, 0])
    );
    assert_eq!(
        parse(vec![Token::directive("stringz", 0), Token::str("hello, world!", 0)]),
        Ok(vec![104, 101, 108, 108, 111, 44, 32, 119, 111, 114, 108, 100, 33, 0])
    );
}

#[test]
fn stringz_without_string_literal() {
    assert_eq!(
        parse(vec![Token::directive("stringz", 0), Token::number(10, 0)]),
        Err(ParseError { message: String::from("expected a string literal") })
    )
}

#[test]
fn stringz_without_next_token() {
    assert_eq!(
        parse(vec![Token::directive("stringz", 0)]),
        Err(ParseError { message: String::from("unexpected end of input") })
    )
}

#[test]
fn orig() {
    let mut parser = Parser::new(vec![Token::directive("orig", 0), Token::number(0x3000, 0)]);
    assert_eq!(parser.parse(), Ok(vec![]));
    assert_eq!(parser.orig, Some(0x3000));
}

#[test]
fn stop_parsing_after_end() {
    assert_eq!(
        parse(vec![
            Token::directive("fill", 0),
            Token::number(0, 0),
            Token::directive("end", 0),
            Token::directive("stringz", 0),
            Token::str("hey", 0),
        ]),
        Ok(vec![0])
    );
}

#[test]
fn blkw() {
    assert_eq!(parse(vec![Token::directive("blkw", 0), Token::number(10, 0),]), Ok(vec![0; 10]));
}

fn assembled(source: &str) -> Result<Vec<u16>, ParseError> {
    parse(lex(source).unwrap())
}

fn failure(message: &str) -> Result<Vec<u16>, ParseError> {
    Err(ParseError { message: String::from(message) })
}

#[test]
fn stringz_hello() {
    assert_eq!(assembled(".STRINGZ \"hello\""), Ok(vec![104, 101, 108, 108, 111, 0]));
    assert_eq!(assembled(".stringz \"\""), Ok(vec![0]));
}

#[test]
fn stringz_keeps_the_low_bits_of_a_wide_character() {
    assert_eq!(assembled(".stringz \"\u{e9}\u{1F600}\""), Ok(vec![0xE9, 0xF600, 0]));
}

#[test]
fn blkw_of_nothing() {
    assert_eq!(assembled(".blkw 0"), Ok(vec![]));
    assert_eq!(assembled(".blkw x3"), Ok(vec![0, 0, 0]));
}

#[test]
fn blkw_without_number() {
    assert_eq!(assembled(".blkw \"3\""), failure("expected a number"));
    assert_eq!(assembled(".blkw"), failure("unexpected end of input"));
}

#[test]
fn fill_with_one_character() {
    assert_eq!(assembled(".fill \"a\""), Ok(vec![97]));
    assert_eq!(assembled(".fill \"ab\""), failure("expected a number"));
    assert_eq!(assembled(".fill \"\""), failure("expected a number"));
    assert_eq!(assembled(".fill label"), failure("expected a number"));
    assert_eq!(assembled(".fill\n5"), failure("expected a number"));
}

#[test]
fn orig_without_number() {
    assert_eq!(assembled(".orig"), failure("unexpected end of input"));
    assert_eq!(assembled(".orig ,"), failure("expected a number"));
}

#[test]
fn last_orig_counts() {
    let mut parser = Parser::new(lex(".orig x3000\n.fill 1\n.orig x4000").unwrap());
    assert_eq!(parser.parse(), Ok(vec![1]));
    assert_eq!(parser.orig, Some(0x4000));
    assert_eq!(parser.origin(), Some(0x4000));
}

#[test]
fn origin_is_forgotten_on_a_syntax_error() {
    let mut parser = Parser::new(lex(".orig x3000\n.fill").unwrap());
    assert_eq!(parser.parse(), failure("unexpected end of input"));
    assert_eq!(parser.orig, None);
}

#[test]
fn source_with_carriage_returns() {
    assert_eq!(
        assembled(".orig x3000\r\nA .fill 1 \r\nB .fill 2\t\r\n  LD R0, B\r\n.end\r\n"),
        Ok(vec![1, 2, 0x21FE])
    );
}

#[test]
fn new_parser_has_no_origin() {
    let parser = Parser::new(vec![Token::directive("orig", 0), Token::number(0x3000, 0)]);
    assert_eq!(parser.orig, None);
    assert_eq!(parser.origin(), None);
}

#[test]
fn parse_twice_gives_the_same() {
    let mut parser = Parser::new(lex(".orig x3000\nadd r1, r1, #1\n.fill 7").unwrap());
    assert_eq!(parser.parse(), Ok(vec![0x1261, 7]));
    assert_eq!(parser.parse(), Ok(vec![0x1261, 7]));
}

#[test]
fn directives_in_any_case() {
    assert_eq!(assembled(".FILL 1\n.Fill 2\n.fILL 3\n.END\n.fill 4"), Ok(vec![1, 2, 3]));
    assert_eq!(assembled(".Blkw 1\n.StringZ \"a\"\n.ORIG x10\n.eNd"), Ok(vec![0, 97, 0]));
}

#[test]
fn directive_with_a_letter_that_unicode_folds() {
    // U+212A, the Kelvin sign, is a capital whose small letter is k
    assert_eq!(
        parse(vec![Token::directive("BL\u{212A}W", 0), Token::number(2, 0)]),
        Ok(vec![0, 0])
    );
    assert_eq!(
        parse(vec![Token::directive("f\u{ee}ll", 0), Token::number(2, 0)]),
        Err(ParseError { message: String::from("unrecognized directive: f\u{ee}ll") })
    );
}

#[test]
fn unrecognized_directive_is_cited_as_written() {
    assert_eq!(assembled(".Fil 1"), failure("unrecognized directive: Fil"));
    assert_eq!(assembled(". 1"), failure("unrecognized directive: "));
}

#[test]
fn other_tokens_are_inert() {
    assert_eq!(assembled("label , 5 \"text\"\n\n.fill 1 other"), Ok(vec![1]));
    assert_eq!(assembled(""), Ok(vec![]));
}

#[test]
fn instructions_with_registers() {
    assert_eq!(assembled("ADD R4, R2, R1"), Ok(vec![0b0001_100_010_0_00_001]));
    assert_eq!(assembled("and r7, r0, r7"), Ok(vec![0b0101_111_000_0_00_111]));
    assert_eq!(assembled("NOT R2, R2"), Ok(vec![0b1001_010_010_111111]));
    assert_eq!(assembled("JMP R2"), Ok(vec![0b1100_000_010_000000]));
    assert_eq!(assembled("JMP R7"), Ok(vec![0b1100_000_111_000000]));
    assert_eq!(assembled("JSR R2"), Ok(vec![0b0100_0_00_010_000000]));
    assert_eq!(assembled("RTI"), Ok(vec![0x8000]));
}

#[test]
fn instructions_with_numbers() {
    assert_eq!(assembled("ADD R4, R2, #-15"), Ok(vec![0b0001_100_010_1_10001]));
    assert_eq!(assembled("AND R4, R2, x9"), Ok(vec![0b0101_100_010_1_01001]));
    assert_eq!(assembled("BR #8"), Ok(vec![0b0000_111_000001000]));
    assert_eq!(assembled("BRnzp #8"), Ok(vec![0b0000_111_000001000]));
    assert_eq!(assembled("BRn #-1"), Ok(vec![0b0000_100_111111111]));
    assert_eq!(assembled("brz 0"), Ok(vec![0b0000_010_000000000]));
    assert_eq!(assembled("BRP 1"), Ok(vec![0b0000_001_000000001]));
    assert_eq!(assembled("BRnz 1"), Ok(vec![0b0000_110_000000001]));
    assert_eq!(assembled("BRnp 1"), Ok(vec![0b0000_101_000000001]));
    assert_eq!(assembled("BRzp 1"), Ok(vec![0b0000_011_000000001]));
    assert_eq!(assembled("JSR #513"), Ok(vec![0b0100_1_01000000001]));
    assert_eq!(assembled("LD R2, #129"), Ok(vec![0b0010_010_010000001]));
    assert_eq!(assembled("LDI R2, #129"), Ok(vec![0b1010_010_010000001]));
    assert_eq!(assembled("LDR R2, R2, #-32"), Ok(vec![0b0110_010_010_100000]));
    assert_eq!(assembled("LEA R2, #160"), Ok(vec![0b1110_010_010100000]));
    assert_eq!(assembled("ST R2, #-256"), Ok(vec![0b0011_010_100000000]));
    assert_eq!(assembled("STI R2, #-256"), Ok(vec![0b1011_010_100000000]));
    assert_eq!(assembled("STR R2, R2, #-32"), Ok(vec![0b0111_010_010_100000]));
    assert_eq!(assembled("TRAP xFF"), Ok(vec![0b1111_0000_1111_1111]));
}

#[test]
fn labels_resolve_to_offsets() {
    let source = ".ORIG x3000\n        LEA R0, MSG\nLOOP    ADD R1, R1, #-1\n\
                  \x20       BRp LOOP\n        TRAP x25\nMSG     .STRINGZ \"hi\"\n        .END\n";
    assert_eq!(assembled(source), Ok(vec![0xE003, 0x127F, 0x03FE, 0xF025, 104, 105, 0]));
}

#[test]
fn label_on_its_own_line() {
    assert_eq!(assembled("BR NEXT\n.fill 7\nNEXT\n\n.fill 9"), Ok(vec![0x0E01, 7, 9]));
    assert_eq!(assembled("HERE BR HERE"), Ok(vec![0x0FFF]));
}

#[test]
fn label_declared_again_takes_the_last_line() {
    assert_eq!(assembled("A .fill 1\nA .fill 2\nLD R0, A"), Ok(vec![1, 2, 0x21FE]));
}

#[test]
fn labels_are_told_apart_by_case() {
    assert_eq!(assembled("ld r0, a\nA .fill 1"), failure("undefined label: a"));
}

#[test]
fn symbol_inside_a_line_declares_nothing() {
    assert_eq!(assembled(".fill 1 A\nLD R0, A"), failure("undefined label: A"));
}

#[test]
fn label_as_an_address() {
    assert_eq!(assembled("TRAP VEC\n.fill 0\nVEC .fill 0"), Ok(vec![0xF002, 0, 0]));
    assert_eq!(
        assembled(".orig x20\nTRAP VEC\n.fill 0\nVEC .fill 0"),
        Ok(vec![0xF022, 0, 0])
    );
    assert_eq!(
        assembled(".orig x3000\nTRAP VEC\nVEC .fill 0"),
        failure("value does not fit its field")
    );
    assert_eq!(
        assembled(".orig xFFFF\nADD R0, R0, L\n.fill 1\nL .fill 0"),
        failure("value does not fit its field")
    );
}

#[test]
fn label_behind_the_last_word() {
    assert_eq!(assembled("BR DONE\nDONE"), failure("label outside the program: DONE"));
    assert_eq!(
        assembled("BR DONE\nDONE\n.end\n.fill 1"),
        failure("label outside the program: DONE")
    );
}

#[test]
fn offset_that_does_not_fit() {
    assert_eq!(assembled("LD R0, FAR\n.blkw 255\nFAR .fill 1"), Ok({
        let mut words = vec![0x20FF];
        words.extend(vec![0; 255]);
        words.push(1);
        words
    }));
    assert_eq!(
        assembled("LD R0, FAR\n.blkw 256\nFAR .fill 1"),
        failure("value does not fit its field")
    );
    assert_eq!(
        assembled("BACK .blkw 256\nLD R0, BACK"),
        failure("value does not fit its field")
    );
    assert_eq!(assembled("BACK .blkw 255\nLD R0, BACK").map(|words| words[255]), Ok(0x2100));
    assert_eq!(assembled("ADD R0, R0, #16"), failure("value does not fit its field"));
    assert_eq!(assembled("LDR R0, R0, #32"), failure("value does not fit its field"));
    assert_eq!(assembled("TRAP x100"), failure("value does not fit its field"));
    assert_eq!(assembled("JSR #1024"), failure("value does not fit its field"));
    assert_eq!(assembled("BR xFF00"), Ok(vec![0x0F00]));
    assert_eq!(assembled("BR x100"), failure("value does not fit its field"));
}

#[test]
fn label_beyond_memory() {
    let source = ".blkw xFFFF\n.fill 1\nBR FAR\nFAR .fill 1";
    assert_eq!(assembled(source), failure("label outside the program: FAR"));
}

#[test]
fn programs_may_be_larger_than_memory() {
    assert_eq!(assembled(".blkw xFFFF\n.blkw xFFFF").map(|words| words.len()), Ok(0x1FFFE));
}

#[test]
fn operands_need_commas() {
    assert_eq!(assembled("ADD R1 R2 R3"), failure("expected a comma"));
    assert_eq!(assembled("ADD R1, R2\n.fill 1"), failure("expected a comma"));
    assert_eq!(assembled("ADD R1, R2"), failure("unexpected end of input"));
    assert_eq!(assembled("ADD R1, R2,"), failure("unexpected end of input"));
    assert_eq!(assembled("NOT"), failure("unexpected end of input"));
}

#[test]
fn operands_of_the_wrong_kind() {
    assert_eq!(assembled("ADD R8, R1, R2"), failure("expected a register"));
    assert_eq!(assembled("ADD 1, R1, R2"), failure("expected a register"));
    assert_eq!(assembled("NOT R1, \"R2\""), failure("expected a register"));
    assert_eq!(assembled("JMP LABEL"), failure("expected a register"));
    assert_eq!(assembled("LD R1, ,"), failure("expected a number or a label"));
    assert_eq!(assembled("BR .fill"), failure("expected a number or a label"));
    assert_eq!(assembled("ADD R1, R1, \"1\""), failure("expected a number or a label"));
}

#[test]
fn first_pass_error_comes_first() {
    assert_eq!(assembled("LD R0, NOWHERE\n.bad"), failure("unrecognized directive: bad"));
    assert_eq!(assembled("LD R0, NOWHERE\n.end\n.bad"), failure("undefined label: NOWHERE"));
}

#[test]
fn register_name_where_a_value_stands_is_a_label() {
    assert_eq!(assembled("LD R0, R1\nR1 .fill 3"), Ok(vec![0x2000, 3]));
}

#[test]
fn parse_error_pretty() {
    assert_eq!(
        ParseError { message: String::from("expected a number") }.pretty(),
        "parse error: expected a number"
    );
}
