use lc3_toolchain::assembler::{assemble, Executable};
use lc3_toolchain::lc3::Machine;

#[test]
fn assembler_test_assemble_empty() {
    assert_eq!(assemble("", ""), Ok(Executable { origin: 0, words: Vec::new() }));
}

#[test]
fn mod_test_assemble_empty() {
    assert_eq!(assemble("empty.asm", ""), Ok(Executable { origin: 0, words: Vec::new() }));
}

#[test]
fn default_executable_is_empty() {
    assert_eq!(Executable::default(), Executable { origin: 0, words: Vec::new() });
}

#[test]
fn assemble_gives_origin_and_words() {
    assert_eq!(
        assemble("p.asm", ".orig x3000\n.fill x1234\n.stringz \"a\"\n.end"),
        Ok(Executable { origin: 0x3000, words: vec![0x1234, 97, 0] })
    );
    assert_eq!(
        assemble("p.asm", ".blkw 2"),
        Ok(Executable { origin: 0, words: vec![0, 0] })
    );
}

#[test]
fn assemble_reports_lex_errors_with_their_place() {
    assert_eq!(
        assemble("p.asm", ".fill xZ"),
        Err(String::from(
            "p.asm:0:7\n\nlex error: invalid hex literal 'xZ': invalid digit found in string\n\
             0 | .fill xZ\n           ^ invalid hex literal 'xZ': invalid digit found in string"
        ))
    );
}

#[test]
fn assemble_reports_parse_errors() {
    assert_eq!(
        assemble("p.asm", ".fill"),
        Err(String::from("p.asm: parse error: unexpected end of input"))
    );
    assert_eq!(
        assemble("p.asm", "BR nowhere"),
        Err(String::from("p.asm: parse error: undefined label: nowhere"))
    );
}

#[test]
fn assembled_program_runs() {
    let source = "        AND R0, R0, #0\n        ADD R0, R0, #7\n        ADD R1, R0, R0\n\
                  \x20       NOT R2, R1\n        TRAP x25\n        ADD R0, R0, #1\n";
    let executable = assemble("run.asm", source).unwrap();
    assert_eq!(executable.words, vec![0x5020, 0x1027, 0x1200, 0x947F, 0xF025, 0x1021]);
    let mut machine = Machine::new();
    assert_eq!(machine.run(&executable.words), Ok(()));
    assert_eq!(machine.get_reg(0), 7);
    assert_eq!(machine.get_reg(1), 14);
    assert_eq!(machine.get_reg(2), 0xFFF1);
    assert_eq!(machine.condition_codes(), (true, false, false));
}
