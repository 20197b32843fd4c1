//! The assembler: from source text to the words of a memory image.
use vstd::prelude::*;

use self::lexer::{lex, spec_lex, spec_pretty};
use self::parser::{spec_origin, spec_parse, Parser};

pub mod chars;
pub mod lexer;
pub mod lexer_lemmas;
pub mod literal;
pub mod names;
pub mod parser;
pub mod parser_lemmas;
pub mod reader;
pub mod symbols;
pub mod text;

verus! {

/// An assembled program: word `i` of `words` belongs at address
/// `origin + i`.
#[derive(Debug, PartialEq)]
pub struct Executable {
    pub origin: u16,
    pub words: Vec<u16>,
}

/// An [`Executable`] as plain values.
pub struct ExecutableView {
    pub origin: u16,
    pub words: Seq<u16>,
}

impl View for Executable {
    type V = ExecutableView;

    open spec fn view(&self) -> ExecutableView {
        ExecutableView { origin: self.origin, words: self.words@ }
    }
}

impl Default for Executable {
    /// The empty program, at address 0.
    fn default() -> (executable: Executable)
        ensures
            executable@ == (ExecutableView { origin: 0, words: Seq::empty() }),
    {
        Executable { origin: 0, words: Vec::new() }
    }
}

/// What the source text `source` assembles to, or the diagnostic for the
/// first error in it. It is lexed, then parsed. The program is loaded where
/// its last `.ORIG` says, or at 0. The diagnostic of a lex error shows the
/// place in the text; that of a parse error names the file.
pub open spec fn spec_assemble(filename: Seq<char>, source: Seq<char>) -> Result<
    ExecutableView,
    Seq<char>,
> {
    match spec_lex(source) {
        Err(error) => Err(spec_pretty(error, filename, source)),
        Ok(tokens) => match spec_parse(tokens) {
            Err(message) => Err(filename + ": "@ + ("parse error: "@ + message)),
            Ok(words) => Ok(
                ExecutableView {
                    origin: match spec_origin(tokens) {
                        Some(address) => address,
                        None => 0,
                    },
                    words,
                },
            ),
        },
    }
}

/// Assembles the source text `source`, which was read from `filename`.
pub fn assemble(filename: &str, source: &str) -> (result: Result<Executable, String>)
    ensures
        match spec_assemble(filename@, source@) {
            Ok(executable) => result matches Ok(found) && found@ == executable,
            Err(text) => result matches Err(found) && found@ == text,
        },
{
    let tokens = match lex(source) {
        Ok(tokens) => tokens,
        Err(error) => {
            return Err(error.pretty(filename, source));
        },
    };
    let mut parser = Parser::new(tokens);
    match parser.parse() {
        Ok(words) => {
            let origin = match parser.origin() {
                Some(address) => address,
                None => 0,
            };
            Ok(Executable { origin, words })
        },
        Err(error) => {
            let mut text = String::from_str(filename);
            text.append(": ");
            text.append(error.pretty().as_str());
            Err(text)
        },
    }
}

} // verus!
