//! The parser: from tokens to the words of the memory image, in two passes
//! over the tokens. The first finds where each label stands; the second
//! writes the words.
use vstd::prelude::*;

use super::chars::chars_of;
use super::lexer::{token_views, Token, TokenKind, TokenKindView, TokenView};
use super::names::{
    directive, mnemonic, register, spec_directive, spec_mnemonic, spec_register, Directive,
    Mnemonic,
};
use super::reader::{lemma_line_start, Reader};
use super::symbols::SymbolTable;
use crate::lc3::instructions::Instruction;

verus! {

/// Why a sequence of tokens is no program.
#[derive(Debug, PartialEq)]
pub struct ParseError {
    pub message: String,
}

impl View for ParseError {
    type V = Seq<char>;

    open spec fn view(&self) -> Seq<char> {
        self.message@
    }
}

impl ParseError {
    /// The error as one line of text: `parse error: ` and the message.
    pub fn pretty(self) -> (text: String)
        ensures
            text@ == "parse error: "@ + self@,
    {
        let mut text = String::from_str("parse error: ");
        text.append(self.message.as_str());
        text
    }
}

/// An error with `message`.
fn error(message: &str) -> (error: ParseError)
    ensures
        error@ == message@,
{
    ParseError { message: String::from_str(message) }
}

/// An error with `message` and, behind it, `name`.
fn error_with_name(message: &str, name: &str) -> (error: ParseError)
    ensures
        error@ == message@ + name@,
{
    let mut text = String::from_str(message);
    text.append(name);
    ParseError { message: text }
}

/// What may stand at one place among the operands of an instruction.
#[derive(Clone, Copy, Debug, PartialEq, Eq, Structural)]
pub enum Place {
    /// A register.
    Register,
    /// A number or a label.
    Value,
    /// A register, a number or a label.
    Either,
}

/// One operand of an instruction.
pub enum Operand {
    Register(u16),
    Literal(u16),
    Label(String),
}

/// An [`Operand`] as plain values.
pub enum OperandView {
    Register(u16),
    Literal(u16),
    Label(Seq<char>),
}

impl View for Operand {
    type V = OperandView;

    open spec fn view(&self) -> OperandView {
        match self {
            Operand::Register(number) => OperandView::Register(*number),
            Operand::Literal(word) => OperandView::Literal(*word),
            Operand::Label(name) => OperandView::Label(name@),
        }
    }
}

/// The operands of `operands` as plain values.
pub open spec fn operand_views(operands: Seq<Operand>) -> Seq<OperandView> {
    operands.map_values(|operand: Operand| operand@)
}

/// One statement of a program.
pub enum Statement {
    /// A token that stands for nothing by itself: a label, a line end, or
    /// anything that no statement starts with.
    Inert,
    /// `.ORIG`: where the image is to be loaded.
    Origin { address: u16 },
    /// `.FILL`, `.STRINGZ`, `.BLKW`: words of data.
    Data { words: Vec<u16> },
    /// `.END`: what follows is no part of the program.
    End,
    /// An instruction. Where `label` names a label, the value of the label
    /// is to take the place of the immediate, offset or trap vector.
    Code { instruction: Instruction, label: Option<String> },
}

/// A [`Statement`] as plain values.
pub enum StatementView {
    Inert,
    Origin { address: u16 },
    Data { words: Seq<u16> },
    End,
    Code { instruction: Instruction, label: Option<Seq<char>> },
}

impl View for Statement {
    type V = StatementView;

    open spec fn view(&self) -> StatementView {
        match self {
            Statement::Inert => StatementView::Inert,
            Statement::Origin { address } => StatementView::Origin { address: *address },
            Statement::Data { words } => StatementView::Data { words: words@ },
            Statement::End => StatementView::End,
            Statement::Code { instruction, label } => StatementView::Code {
                instruction: *instruction,
                label: match label {
                    Some(name) => Some(name@),
                    None => None,
                },
            },
        }
    }
}

/// A statement and the number of tokens that follow its first one.
pub struct Parsed {
    pub statement: StatementView,
    pub tail: nat,
}

/// The number at `pos`, which a directive needs as its operand.
pub open spec fn number_at(ts: Seq<TokenView>, pos: int) -> Result<u16, Seq<char>> {
    if !(0 <= pos < ts.len()) {
        Err("unexpected end of input"@)
    } else {
        match ts[pos].kind {
            TokenKindView::Number(word) => Ok(word),
            _ => Err("expected a number"@),
        }
    }
}

/// The string at `pos`, which a directive needs as its operand.
pub open spec fn string_at(ts: Seq<TokenView>, pos: int) -> Result<Seq<char>, Seq<char>> {
    if !(0 <= pos < ts.len()) {
        Err("unexpected end of input"@)
    } else {
        match ts[pos].kind {
            TokenKindView::Str(content) => Ok(content),
            _ => Err("expected a string literal"@),
        }
    }
}

/// The code of a character as a word: its lowest 16 bits.
pub open spec fn spec_char_word(c: char) -> u16 {
    (c as u32 % 0x10000) as u16
}

/// The word that `.FILL` takes from `pos`: a number, or the code of the one
/// character of a string.
pub open spec fn fill_word_at(ts: Seq<TokenView>, pos: int) -> Result<u16, Seq<char>> {
    if !(0 <= pos < ts.len()) {
        Err("unexpected end of input"@)
    } else {
        match ts[pos].kind {
            TokenKindView::Number(word) => Ok(word),
            TokenKindView::Str(content) => if content.len() == 1 {
                Ok(spec_char_word(content[0]))
            } else {
                Err("expected a number"@)
            },
            _ => Err("expected a number"@),
        }
    }
}

/// The operand at `pos`, read for `place`. A symbol that names a register is
/// that register wherever a register may stand; any other symbol is a label.
pub open spec fn operand_at(ts: Seq<TokenView>, pos: int, place: Place) -> Result<
    OperandView,
    Seq<char>,
> {
    if !(0 <= pos < ts.len()) {
        Err("unexpected end of input"@)
    } else {
        match ts[pos].kind {
            TokenKindView::Symbol(name) => if place is Value {
                Ok(OperandView::Label(name))
            } else {
                match spec_register(name) {
                    Some(number) => Ok(OperandView::Register(number)),
                    None => if place is Register {
                        Err("expected a register"@)
                    } else {
                        Ok(OperandView::Label(name))
                    },
                }
            },
            TokenKindView::Number(word) => if place is Register {
                Err("expected a register"@)
            } else {
                Ok(OperandView::Literal(word))
            },
            _ => if place is Register {
                Err("expected a register"@)
            } else {
                Err("expected a number or a label"@)
            },
        }
    }
}

/// The number of tokens that `count` operands and the commas between them
/// make.
pub open spec fn span(count: nat) -> nat {
    if count == 0 {
        0
    } else {
        (2 * count - 1) as nat
    }
}

/// The operands that stand from `pos` on, one for each place of `places`,
/// with a comma before each but the first. `read` holds those that have been
/// read already.
pub open spec fn spec_operands(
    ts: Seq<TokenView>,
    pos: int,
    places: Seq<Place>,
    read: Seq<OperandView>,
) -> Result<Seq<OperandView>, Seq<char>>
    decreases places.len() - read.len(),
{
    let index = read.len() as int;
    if index >= places.len() {
        Ok(read)
    } else {
        let at = pos + 2 * index;
        if index > 0 && !(0 <= at - 1 < ts.len()) {
            Err("unexpected end of input"@)
        } else if index > 0 && !(ts[at - 1].kind is Comma) {
            Err("expected a comma"@)
        } else {
            match operand_at(ts, at, places[index]) {
                Err(message) => Err(message),
                Ok(operand) => spec_operands(ts, pos, places, read.push(operand)),
            }
        }
    }
}

/// The places of the operands of each operation.
pub open spec fn spec_shape(mnemonic: Mnemonic) -> Seq<Place> {
    match mnemonic {
        Mnemonic::Add | Mnemonic::And => seq![Place::Register, Place::Register, Place::Either],
        Mnemonic::Not => seq![Place::Register, Place::Register],
        Mnemonic::Br { .. } | Mnemonic::Trap => seq![Place::Value],
        Mnemonic::Jmp => seq![Place::Register],
        Mnemonic::Jsr => seq![Place::Either],
        Mnemonic::Ld | Mnemonic::Ldi | Mnemonic::Lea | Mnemonic::St | Mnemonic::Sti => seq![
            Place::Register,
            Place::Value,
        ],
        Mnemonic::Ldr | Mnemonic::Str => seq![Place::Register, Place::Register, Place::Value],
        Mnemonic::Rti => Seq::empty(),
    }
}

/// The number of the register that `operand` is, or 0.
pub open spec fn register_of(operand: OperandView) -> u16 {
    match operand {
        OperandView::Register(number) => number,
        _ => 0,
    }
}

/// The word that `operand` is, or 0: a label is 0 until it is resolved.
pub open spec fn literal_of(operand: OperandView) -> u16 {
    match operand {
        OperandView::Literal(word) => word,
        _ => 0,
    }
}

/// The label that `operand` is, if it is one.
pub open spec fn label_of(operand: OperandView) -> Option<Seq<char>> {
    match operand {
        OperandView::Label(name) => Some(name),
        _ => None,
    }
}

/// The instruction that a mnemonic and its operands make, and the label that
/// is to be resolved in it, if it has one. ADD and AND with a register as
/// their last operand take the register form; JSR with a register is JSRR;
/// JMP through R7 is RET.
pub open spec fn spec_build(mnemonic: Mnemonic, operands: Seq<OperandView>) -> (
    Instruction,
    Option<Seq<char>>,
) {
    let first = operands[0];
    let second = operands[1];
    let third = operands[2];
    match mnemonic {
        Mnemonic::Add => if third is Register {
            (
                Instruction::Add {
                    dest: register_of(first),
                    source_1: register_of(second),
                    source_2: register_of(third),
                },
                None,
            )
        } else {
            (
                Instruction::AddImmediate {
                    dest: register_of(first),
                    source: register_of(second),
                    value: literal_of(third),
                },
                label_of(third),
            )
        },
        Mnemonic::And => if third is Register {
            (
                Instruction::And {
                    dest: register_of(first),
                    source_1: register_of(second),
                    source_2: register_of(third),
                },
                None,
            )
        } else {
            (
                Instruction::AndImmediate {
                    dest: register_of(first),
                    source: register_of(second),
                    value: literal_of(third),
                },
                label_of(third),
            )
        },
        Mnemonic::Br { n, z, p } => (
            Instruction::Br { n, z, p, pc_offset: literal_of(first) },
            label_of(first),
        ),
        Mnemonic::Jmp => if register_of(first) == 7 {
            (Instruction::Ret, None)
        } else {
            (Instruction::Jmp { base: register_of(first) }, None)
        },
        Mnemonic::Jsr => if first is Register {
            (Instruction::JsrR { base: register_of(first) }, None)
        } else {
            (Instruction::Jsr { pc_offset: literal_of(first) }, label_of(first))
        },
        Mnemonic::Ld => (
            Instruction::Ld { dest: register_of(first), pc_offset: literal_of(second) },
            label_of(second),
        ),
        Mnemonic::Ldi => (
            Instruction::LdI { dest: register_of(first), pc_offset: literal_of(second) },
            label_of(second),
        ),
        Mnemonic::Ldr => (
            Instruction::LdR {
                dest: register_of(first),
                base: register_of(second),
                offset: literal_of(third),
            },
            label_of(third),
        ),
        Mnemonic::Lea => (
            Instruction::Lea { dest: register_of(first), pc_offset: literal_of(second) },
            label_of(second),
        ),
        Mnemonic::Not => (
            Instruction::Not { dest: register_of(first), source: register_of(second) },
            None,
        ),
        Mnemonic::Rti => (Instruction::Rti, None),
        Mnemonic::St => (
            Instruction::St { source: register_of(first), pc_offset: literal_of(second) },
            label_of(second),
        ),
        Mnemonic::Sti => (
            Instruction::StI { source: register_of(first), pc_offset: literal_of(second) },
            label_of(second),
        ),
        Mnemonic::Str => (
            Instruction::StR {
                source: register_of(first),
                base: register_of(second),
                offset: literal_of(third),
            },
            label_of(third),
        ),
        Mnemonic::Trap => (Instruction::Trap { vec: literal_of(first) }, label_of(first)),
    }
}

/// The statement that the directive `name` starts at `pos`.
pub open spec fn directive_at(ts: Seq<TokenView>, pos: int, name: Seq<char>) -> Result<
    Parsed,
    Seq<char>,
> {
    match spec_directive(name) {
        None => Err("unrecognized directive: "@ + name),
        Some(Directive::Orig) => match number_at(ts, pos + 1) {
            Ok(address) => Ok(Parsed { statement: StatementView::Origin { address }, tail: 1 }),
            Err(message) => Err(message),
        },
        Some(Directive::Fill) => match fill_word_at(ts, pos + 1) {
            Ok(word) => Ok(
                Parsed { statement: StatementView::Data { words: seq![word] }, tail: 1 },
            ),
            Err(message) => Err(message),
        },
        Some(Directive::Stringz) => match string_at(ts, pos + 1) {
            Ok(content) => Ok(
                Parsed {
                    statement: StatementView::Data {
                        words: content.map_values(|c: char| spec_char_word(c)).push(0u16),
                    },
                    tail: 1,
                },
            ),
            Err(message) => Err(message),
        },
        Some(Directive::Blkw) => match number_at(ts, pos + 1) {
            Ok(count) => Ok(
                Parsed {
                    statement: StatementView::Data {
                        words: Seq::new(count as nat, |i: int| 0u16),
                    },
                    tail: 1,
                },
            ),
            Err(message) => Err(message),
        },
        Some(Directive::End) => Ok(Parsed { statement: StatementView::End, tail: 0 }),
    }
}

/// The statement that starts at `pos`. A directive and a mnemonic take their
/// operands with them; any other token stands alone and for nothing.
pub open spec fn statement_at(ts: Seq<TokenView>, pos: int) -> Result<Parsed, Seq<char>> {
    match ts[pos].kind {
        TokenKindView::Directive(name) => directive_at(ts, pos, name),
        TokenKindView::Symbol(name) => match spec_mnemonic(name) {
            None => Ok(Parsed { statement: StatementView::Inert, tail: 0 }),
            Some(mnemonic) => match spec_operands(
                ts,
                pos + 1,
                spec_shape(mnemonic),
                Seq::empty(),
            ) {
                Err(message) => Err(message),
                Ok(operands) => {
                    let (instruction, label) = spec_build(mnemonic, operands);
                    Ok(
                        Parsed {
                            statement: StatementView::Code { instruction, label },
                            tail: span(spec_shape(mnemonic).len()),
                        },
                    )
                },
            },
        },
        _ => Ok(Parsed { statement: StatementView::Inert, tail: 0 }),
    }
}

/// The code of a character as a word.
fn char_word(c: char) -> (word: u16)
    ensures
        word == spec_char_word(c),
{
    (c as u32 % 0x10000) as u16
}

/// The places of the operands of each operation.
fn shape(mnemonic: Mnemonic) -> (places: Vec<Place>)
    ensures
        places@ == spec_shape(mnemonic),
        places.len() <= 3,
{
    let places = match mnemonic {
        Mnemonic::Add | Mnemonic::And => vec![Place::Register, Place::Register, Place::Either],
        Mnemonic::Not => vec![Place::Register, Place::Register],
        Mnemonic::Br { .. } | Mnemonic::Trap => vec![Place::Value],
        Mnemonic::Jmp => vec![Place::Register],
        Mnemonic::Jsr => vec![Place::Either],
        Mnemonic::Ld | Mnemonic::Ldi | Mnemonic::Lea | Mnemonic::St | Mnemonic::Sti => vec![
            Place::Register,
            Place::Value,
        ],
        Mnemonic::Ldr | Mnemonic::Str => vec![Place::Register, Place::Register, Place::Value],
        Mnemonic::Rti => Vec::new(),
    };
    assert(places@ =~= spec_shape(mnemonic));
    places
}

/// The number of the register that the operand at `index` is, or 0.
fn register_in(operands: &Vec<Operand>, index: usize) -> (number: u16)
    requires
        index < operands.len(),
    ensures
        number == register_of(operand_views(operands@)[index as int]),
{
    match &operands[index] {
        Operand::Register(number) => *number,
        _ => 0,
    }
}

/// The word that the operand at `index` is, or 0.
fn literal_in(operands: &Vec<Operand>, index: usize) -> (word: u16)
    requires
        index < operands.len(),
    ensures
        word == literal_of(operand_views(operands@)[index as int]),
{
    match &operands[index] {
        Operand::Literal(word) => *word,
        _ => 0,
    }
}

/// The label that the operand at `index` is, if it is one.
fn label_in(operands: &Vec<Operand>, index: usize) -> (label: Option<String>)
    requires
        index < operands.len(),
    ensures
        label_view(label) == label_of(operand_views(operands@)[index as int]),
{
    match &operands[index] {
        Operand::Label(name) => Some(name.clone()),
        _ => None,
    }
}

/// Whether the operand at `index` is a register.
fn is_register_in(operands: &Vec<Operand>, index: usize) -> (answer: bool)
    requires
        index < operands.len(),
    ensures
        answer == (operand_views(operands@)[index as int] is Register),
{
    match &operands[index] {
        Operand::Register(_) => true,
        _ => false,
    }
}

/// A label, if there is one, as plain values.
pub open spec fn label_view(label: Option<String>) -> Option<Seq<char>> {
    match label {
        Some(name) => Some(name@),
        None => None,
    }
}

/// The instruction that a mnemonic and its operands make, and the label that
/// is to be resolved in it.
fn build(mnemonic: Mnemonic, operands: &Vec<Operand>) -> (built: (Instruction, Option<String>))
    requires
        operands.len() == spec_shape(mnemonic).len(),
    ensures
        (built.0, label_view(built.1)) == spec_build(mnemonic, operand_views(operands@)),
{
    match mnemonic {
        Mnemonic::Add => if is_register_in(operands, 2) {
            (
                Instruction::Add {
                    dest: register_in(operands, 0),
                    source_1: register_in(operands, 1),
                    source_2: register_in(operands, 2),
                },
                None,
            )
        } else {
            (
                Instruction::AddImmediate {
                    dest: register_in(operands, 0),
                    source: register_in(operands, 1),
                    value: literal_in(operands, 2),
                },
                label_in(operands, 2),
            )
        },
        Mnemonic::And => if is_register_in(operands, 2) {
            (
                Instruction::And {
                    dest: register_in(operands, 0),
                    source_1: register_in(operands, 1),
                    source_2: register_in(operands, 2),
                },
                None,
            )
        } else {
            (
                Instruction::AndImmediate {
                    dest: register_in(operands, 0),
                    source: register_in(operands, 1),
                    value: literal_in(operands, 2),
                },
                label_in(operands, 2),
            )
        },
        Mnemonic::Br { n, z, p } => (
            Instruction::Br { n, z, p, pc_offset: literal_in(operands, 0) },
            label_in(operands, 0),
        ),
        Mnemonic::Jmp => {
            let base = register_in(operands, 0);
            if base == 7 {
                (Instruction::Ret, None)
            } else {
                (Instruction::Jmp { base }, None)
            }
        },
        Mnemonic::Jsr => if is_register_in(operands, 0) {
            (Instruction::JsrR { base: register_in(operands, 0) }, None)
        } else {
            (Instruction::Jsr { pc_offset: literal_in(operands, 0) }, label_in(operands, 0))
        },
        Mnemonic::Ld => (
            Instruction::Ld { dest: register_in(operands, 0), pc_offset: literal_in(operands, 1) },
            label_in(operands, 1),
        ),
        Mnemonic::Ldi => (
            Instruction::LdI {
                dest: register_in(operands, 0),
                pc_offset: literal_in(operands, 1),
            },
            label_in(operands, 1),
        ),
        Mnemonic::Ldr => (
            Instruction::LdR {
                dest: register_in(operands, 0),
                base: register_in(operands, 1),
                offset: literal_in(operands, 2),
            },
            label_in(operands, 2),
        ),
        Mnemonic::Lea => (
            Instruction::Lea {
                dest: register_in(operands, 0),
                pc_offset: literal_in(operands, 1),
            },
            label_in(operands, 1),
        ),
        Mnemonic::Not => (
            Instruction::Not { dest: register_in(operands, 0), source: register_in(operands, 1) },
            None,
        ),
        Mnemonic::Rti => (Instruction::Rti, None),
        Mnemonic::St => (
            Instruction::St {
                source: register_in(operands, 0),
                pc_offset: literal_in(operands, 1),
            },
            label_in(operands, 1),
        ),
        Mnemonic::Sti => (
            Instruction::StI {
                source: register_in(operands, 0),
                pc_offset: literal_in(operands, 1),
            },
            label_in(operands, 1),
        ),
        Mnemonic::Str => (
            Instruction::StR {
                source: register_in(operands, 0),
                base: register_in(operands, 1),
                offset: literal_in(operands, 2),
            },
            label_in(operands, 2),
        ),
        Mnemonic::Trap => (
            Instruction::Trap { vec: literal_in(operands, 0) },
            label_in(operands, 0),
        ),
    }
}

/// The two-pass parser.
pub struct Parser {
    reader: Reader<Token>,
    /// The line on which each label was declared.
    labels: SymbolTable,
    /// For each line met so far, how many words stand before it.
    line_starts: Vec<u32>,
    /// How many words the program has, as far as it has been measured.
    size: u32,
    /// The address given by the last `.ORIG`, once the tokens are parsed.
    pub orig: Option<u16>,
    /// The words written so far.
    instructions: Vec<u16>,
}

impl Parser {
    /// The tokens that the parser reads.
    pub closed spec fn tokens(&self) -> Seq<TokenView> {
        token_views(self.reader.items())
    }

    /// The number of tokens read so far.
    pub closed spec fn position(&self) -> int {
        self.reader.position() as int
    }

    /// The reader is in order.
    pub closed spec fn wf(&self) -> bool {
        self.reader.wf()
    }

    /// What the field `orig` holds.
    pub closed spec fn origin_view(&self) -> Option<u16> {
        self.orig
    }

    /// The address given by the last `.ORIG`, once the tokens are parsed.
    pub fn origin(&self) -> (address: Option<u16>)
        ensures
            address == self.origin_view(),
    {
        self.orig
    }

    /// The parser is as `before`, but for the place of its reader, which is
    /// in order.
    spec fn reads_on(&self, before: &Parser) -> bool {
        &&& self.reader.wf()
        &&& self.reader.items() == before.reader.items()
        &&& self.labels == before.labels
        &&& self.line_starts == before.line_starts
        &&& self.size == before.size
        &&& self.orig == before.orig
        &&& self.instructions == before.instructions
    }

    /// A parser for `tokens`, before the first of them: no label is known,
    /// no word is measured or written, and the one line that has been met
    /// starts at word 0.
    pub fn new(tokens: Vec<Token>) -> (parser: Self)
        ensures
            parser.wf(),
            parser.tokens() == token_views(tokens@),
            parser.position() == 0,
            parser.layout() == Layout::start(),
            parser.origin_view() is None,
    {
        let parser = Parser {
            reader: Reader::from(tokens),
            labels: SymbolTable::new(),
            line_starts: vec![0u32],
            size: 0,
            orig: None,
            instructions: Vec::new(),
        };
        proof {
            assert(parser.line_starts@ =~= seq![0u32]);
        }
        parser
    }

    /// Reads the next token, which must be a number.
    fn expect_number(&mut self) -> (result: Result<u16, ParseError>)
        requires
            old(self).reader.wf(),
        ensures
            final(self).reads_on(old(self)),
            match number_at(old(self).tokens(), old(self).position()) {
                Ok(word) => {
                    &&& result == Ok::<u16, ParseError>(word)
                    &&& final(self).position() == old(self).position() + 1
                    &&& final(self).reader.line_number() == old(self).reader.line_number()
                },
                Err(message) => result matches Err(found) && found@ == message,
            },
    {
        proof {
            self.reader.lemma_wf();
        }
        match self.reader.next() {
            Some(Token { kind: TokenKind::Number(num), .. }) => Ok(num),
            Some(_) => Err(error("expected a number")),
            None => Err(error("unexpected end of input")),
        }
    }

    /// Reads the next token, which must be a string literal.
    fn expect_string(&mut self) -> (result: Result<String, ParseError>)
        requires
            old(self).reader.wf(),
        ensures
            final(self).reads_on(old(self)),
            match string_at(old(self).tokens(), old(self).position()) {
                Ok(content) => {
                    &&& result matches Ok(found)
                    &&& found@ == content
                    &&& final(self).position() == old(self).position() + 1
                    &&& final(self).reader.line_number() == old(self).reader.line_number()
                },
                Err(message) => result matches Err(found) && found@ == message,
            },
    {
        proof {
            self.reader.lemma_wf();
        }
        match self.reader.next() {
            Some(Token { kind: TokenKind::Str(string), .. }) => Ok(string),
            Some(_) => Err(error("expected a string literal")),
            None => Err(error("unexpected end of input")),
        }
    }

    /// Reads the next token, which must be the operand of `.FILL`.
    fn expect_fill_word(&mut self) -> (result: Result<u16, ParseError>)
        requires
            old(self).reader.wf(),
        ensures
            final(self).reads_on(old(self)),
            match fill_word_at(old(self).tokens(), old(self).position()) {
                Ok(word) => {
                    &&& result == Ok::<u16, ParseError>(word)
                    &&& final(self).position() == old(self).position() + 1
                    &&& final(self).reader.line_number() == old(self).reader.line_number()
                },
                Err(message) => result matches Err(found) && found@ == message,
            },
    {
        proof {
            self.reader.lemma_wf();
        }
        match self.reader.next() {
            Some(Token { kind: TokenKind::Number(num), .. }) => Ok(num),
            Some(Token { kind: TokenKind::Str(string), .. }) => {
                let chars = chars_of(string.as_str());
                if chars.len() == 1 {
                    Ok(char_word(chars[0]))
                } else {
                    Err(error("expected a number"))
                }
            },
            Some(_) => Err(error("expected a number")),
            None => Err(error("unexpected end of input")),
        }
    }

    /// Reads the next token, which must be a comma.
    fn expect_comma(&mut self) -> (result: Result<(), ParseError>)
        requires
            old(self).reader.wf(),
        ensures
            final(self).reads_on(old(self)),
            if !(old(self).position() < old(self).tokens().len()) {
                result matches Err(found) && found@ == "unexpected end of input"@
            } else if !(old(self).tokens()[old(self).position()].kind is Comma) {
                result matches Err(found) && found@ == "expected a comma"@
            } else {
                &&& result is Ok
                &&& final(self).position() == old(self).position() + 1
                &&& final(self).reader.line_number() == old(self).reader.line_number()
            },
    {
        proof {
            self.reader.lemma_wf();
        }
        match self.reader.next() {
            Some(Token { kind: TokenKind::Comma, .. }) => Ok(()),
            Some(_) => Err(error("expected a comma")),
            None => Err(error("unexpected end of input")),
        }
    }

    /// Reads the next token as an operand for `place`.
    fn expect_operand(&mut self, place: Place) -> (result: Result<Operand, ParseError>)
        requires
            old(self).reader.wf(),
        ensures
            final(self).reads_on(old(self)),
            match operand_at(old(self).tokens(), old(self).position(), place) {
                Ok(operand) => {
                    &&& result matches Ok(found)
                    &&& found@ == operand
                    &&& final(self).position() == old(self).position() + 1
                    &&& final(self).reader.line_number() == old(self).reader.line_number()
                },
                Err(message) => result matches Err(found) && found@ == message,
            },
    {
        proof {
            self.reader.lemma_wf();
        }
        match self.reader.next() {
            None => Err(error("unexpected end of input")),
            Some(Token { kind: TokenKind::Symbol(name), .. }) => {
                match place {
                    Place::Value => Ok(Operand::Label(name)),
                    _ => match register(name.as_str()) {
                        Some(number) => Ok(Operand::Register(number)),
                        None => match place {
                            Place::Register => Err(error("expected a register")),
                            _ => Ok(Operand::Label(name)),
                        },
                    },
                }
            },
            Some(Token { kind: TokenKind::Number(word), .. }) => {
                match place {
                    Place::Register => Err(error("expected a register")),
                    _ => Ok(Operand::Literal(word)),
                }
            },
            Some(_) => {
                match place {
                    Place::Register => Err(error("expected a register")),
                    _ => Err(error("expected a number or a label")),
                }
            },
        }
    }

    /// Reads one operand for each place of `places`, with a comma before each
    /// but the first.
    fn operands(&mut self, places: &Vec<Place>) -> (result: Result<Vec<Operand>, ParseError>)
        requires
            old(self).reader.wf(),
        ensures
            final(self).reads_on(old(self)),
            match spec_operands(
                old(self).tokens(),
                old(self).position(),
                places@,
                Seq::empty(),
            ) {
                Ok(operands) => {
                    &&& result matches Ok(found)
                    &&& operand_views(found@) == operands
                    &&& found.len() == places.len()
                    &&& final(self).position() == old(self).position() + span(places.len() as nat)
                    &&& final(self).reader.line_number() == old(self).reader.line_number()
                },
                Err(message) => result matches Err(found) && found@ == message,
            },
    {
        let ghost ts = self.tokens();
        let ghost pos = self.position();
        let mut found: Vec<Operand> = Vec::new();
        proof {
            assert(operand_views(found@) =~= Seq::empty());
        }
        while found.len() < places.len()
            invariant
                self.reads_on(old(self)),
                ts == old(self).tokens(),
                pos == old(self).position(),
                found.len() <= places.len(),
                self.position() == pos + span(found.len() as nat),
                self.reader.line_number() == old(self).reader.line_number(),
                spec_operands(ts, pos, places@, Seq::empty()) == spec_operands(
                    ts,
                    pos,
                    places@,
                    operand_views(found@),
                ),
            decreases places.len() - found.len(),
        {
            if found.len() > 0 {
                match self.expect_comma() {
                    Err(error) => {
                        return Err(error);
                    },
                    Ok(()) => {},
                }
            }
            match self.expect_operand(places[found.len()]) {
                Err(error) => {
                    return Err(error);
                },
                Ok(operand) => {
                    proof {
                        assert(operand_views(found@.push(operand)) =~= operand_views(found@).push(
                            operand@,
                        ));
                    }
                    found.push(operand);
                },
            }
        }
        Ok(found)
    }

    /// Reads the operand of the directive `directive`, which has just been
    /// read, and gives the statement that the two make.
    fn parse_directive(&mut self, directive: &str) -> (result: Result<Statement, ParseError>)
        requires
            old(self).reader.wf(),
            old(self).position() >= 1,
        ensures
            final(self).reads_on(old(self)),
            match directive_at(old(self).tokens(), old(self).position() - 1, directive@) {
                Ok(parsed) => {
                    &&& result matches Ok(found)
                    &&& found@ == parsed.statement
                    &&& final(self).position() == old(self).position() + parsed.tail
                    &&& final(self).reader.line_number() == old(self).reader.line_number()
                },
                Err(message) => result matches Err(found) && found@ == message,
            },
    {
        match super::names::directive(directive) {
            Some(Directive::Fill) => {
                match self.expect_fill_word() {
                    Ok(word) => {
                        let words = vec![word];
                        assert(words@ =~= seq![word]);
                        Ok(Statement::Data { words })
                    },
                    Err(error) => Err(error),
                }
            },
            Some(Directive::Stringz) => {
                match self.expect_string() {
                    Ok(string) => {
                        let chars = chars_of(string.as_str());
                        let mut words: Vec<u16> = Vec::new();
                        let mut index: usize = 0;
                        while index < chars.len()
                            invariant
                                index <= chars.len(),
                                words@ == chars@.take(index as int).map_values(
                                    |c: char| spec_char_word(c),
                                ),
                            decreases chars.len() - index,
                        {
                            words.push(char_word(chars[index]));
                            proof {
                                let before = chars@.take(index as int);
                                assert(chars@.take(index + 1) =~= before.push(
                                    chars@[index as int],
                                ));
                                assert(chars@.take(index + 1).map_values(
                                    |c: char| spec_char_word(c),
                                ) =~= before.map_values(|c: char| spec_char_word(c)).push(
                                    spec_char_word(chars@[index as int]),
                                ));
                            }
                            index += 1;
                        }
                        proof {
                            assert(chars@.take(index as int) =~= chars@);
                        }
                        // null-terminate the string
                        words.push(0);
                        Ok(Statement::Data { words })
                    },
                    Err(error) => Err(error),
                }
            },
            Some(Directive::Blkw) => {
                match self.expect_number() {
                    Ok(count) => {
                        let words = vec![0u16; count as usize];
                        assert(words@ =~= Seq::new(count as nat, |i: int| 0u16));
                        Ok(Statement::Data { words })
                    },
                    Err(error) => Err(error),
                }
            },
            Some(Directive::Orig) => {
                match self.expect_number() {
                    Ok(address) => Ok(Statement::Origin { address }),
                    Err(error) => Err(error),
                }
            },
            Some(Directive::End) => Ok(Statement::End),
            None => Err(error_with_name("unrecognized directive: ", directive)),
        }
    }

    /// Reads the next statement.
    fn statement(&mut self) -> (result: Result<Statement, ParseError>)
        requires
            old(self).reader.wf(),
            old(self).position() < old(self).tokens().len(),
        ensures
            final(self).reads_on(old(self)),
            match statement_at(old(self).tokens(), old(self).position()) {
                Ok(parsed) => {
                    &&& result matches Ok(found)
                    &&& found@ == parsed.statement
                    &&& final(self).position() == old(self).position() + 1 + parsed.tail
                    &&& final(self).reader.line_number() == old(self).reader.line_number() + (
                    if old(self).tokens()[old(self).position()].kind is Newline {
                        1nat
                    } else {
                        0nat
                    })
                },
                Err(message) => result matches Err(found) && found@ == message,
            },
    {
        proof {
            self.reader.lemma_wf();
        }
        match self.reader.next() {
            None => Ok(Statement::Inert),
            Some(token) => match token.kind {
                TokenKind::Directive(name) => self.parse_directive(name.as_str()),
                TokenKind::Symbol(name) => match mnemonic(name.as_str()) {
                    None => Ok(Statement::Inert),
                    Some(mnemonic) => {
                        let places = shape(mnemonic);
                        match self.operands(&places) {
                            Err(error) => Err(error),
                            Ok(operands) => {
                                let (instruction, label) = build(mnemonic, &operands);
                                Ok(Statement::Code { instruction, label })
                            },
                        }
                    },
                },
                _ => Ok(Statement::Inert),
            },
        }
    }
}


/// Operands that can be read stand inside the tokens.
proof fn lemma_operands_bounds(
    ts: Seq<TokenView>,
    pos: int,
    places: Seq<Place>,
    read: Seq<OperandView>,
)
    requires
        0 <= pos <= ts.len(),
        read.len() <= places.len(),
        pos + span(read.len()) <= ts.len(),
        spec_operands(ts, pos, places, read) is Ok,
    ensures
        pos + span(places.len()) <= ts.len(),
    decreases places.len() - read.len(),
{
    if read.len() < places.len() {
        let operand = operand_at(ts, pos + 2 * read.len(), places[read.len() as int])->Ok_0;
        lemma_operands_bounds(ts, pos, places, read.push(operand));
    }
}

/// A statement that can be read ends inside the tokens.
pub proof fn lemma_statement_bounds(ts: Seq<TokenView>, pos: int)
    requires
        0 <= pos < ts.len(),
    ensures
        statement_at(ts, pos) matches Ok(parsed) ==> pos + 1 + parsed.tail <= ts.len(),
{
    match ts[pos].kind {
        TokenKindView::Symbol(name) => match spec_mnemonic(name) {
            Some(mnemonic) => {
                if spec_operands(ts, pos + 1, spec_shape(mnemonic), Seq::empty()) is Ok {
                    lemma_operands_bounds(ts, pos + 1, spec_shape(mnemonic), Seq::empty());
                }
            },
            None => {},
        },
        _ => {},
    }
}

/// The size of a program of `size` words after `words` more. A program that
/// reaches the end of memory is not measured beyond it.
pub open spec fn spec_grow(size: u32, words: nat) -> u32 {
    if size + words >= 0x10000 {
        0x10000u32
    } else {
        (size + words) as u32
    }
}

/// What the first pass finds out about a program.
pub struct Layout {
    /// The line on which each label was declared.
    pub labels: Map<Seq<char>, usize>,
    /// For each line, how many words stand before it.
    pub line_starts: Seq<u32>,
    /// The address given by the last `.ORIG`.
    pub origin: Option<u16>,
    /// How many words the program has.
    pub size: u32,
}

impl Layout {
    /// The layout before the first token: one line, no words.
    pub open spec fn start() -> Layout {
        Layout { labels: Map::empty(), line_starts: seq![0u32], origin: None, size: 0 }
    }

    /// There is a line, every label stands on a line that has been met, and
    /// the size stays within memory.
    pub open spec fn wf(self) -> bool {
        &&& self.line_starts.len() >= 1
        &&& self.size <= 0x10000
        &&& forall|name: Seq<char>| #[trigger]
            self.labels.contains_key(name) ==> self.labels[name] < self.line_starts.len()
    }

    /// The number of the line that is being read.
    pub open spec fn line(self) -> nat {
        (self.line_starts.len() - 1) as nat
    }

    /// The address at which the image is loaded: 0 where no `.ORIG` says
    /// otherwise.
    pub open spec fn base(self) -> u16 {
        match self.origin {
            Some(address) => address,
            None => 0,
        }
    }
}

/// Whether the token at `pos` is the first of its line.
pub open spec fn at_line_start(ts: Seq<TokenView>, pos: int) -> bool {
    pos == 0 || ts[pos - 1].kind is Newline
}

/// The layout with the label that the token at `pos` declares, if it
/// declares one: a symbol that is the first token of its line is bound to
/// the number of that line.
pub open spec fn declare(ts: Seq<TokenView>, pos: int, layout: Layout) -> Layout {
    match ts[pos].kind {
        TokenKindView::Symbol(name) => if at_line_start(ts, pos) {
            Layout { labels: layout.labels.insert(name, layout.line() as usize), ..layout }
        } else {
            layout
        },
        _ => layout,
    }
}

/// The layout after the statement `statement`, which starts at `pos`: data
/// and code add to the size, `.ORIG` gives the origin, and a line end starts
/// a line at the size reached.
pub open spec fn measure(
    ts: Seq<TokenView>,
    pos: int,
    layout: Layout,
    statement: StatementView,
) -> Layout {
    match statement {
        StatementView::Origin { address } => Layout { origin: Some(address), ..layout },
        StatementView::Data { words } => Layout {
            size: spec_grow(layout.size, words.len()),
            ..layout
        },
        StatementView::Code { .. } => Layout { size: spec_grow(layout.size, 1), ..layout },
        StatementView::Inert => if ts[pos].kind is Newline {
            Layout { line_starts: layout.line_starts.push(layout.size), ..layout }
        } else {
            layout
        },
        StatementView::End => layout,
    }
}

/// The first pass, from `pos` on: the layout of the program, or the first
/// statement that is none.
pub open spec fn layout_from(ts: Seq<TokenView>, pos: int, layout: Layout) -> Result<
    Layout,
    Seq<char>,
>
    decreases ts.len() - pos,
{
    if 0 <= pos < ts.len() {
        proof {
            lemma_statement_bounds(ts, pos);
        }
        match statement_at(ts, pos) {
            Err(message) => Err(message),
            Ok(parsed) => {
                let next = measure(ts, pos, declare(ts, pos, layout), parsed.statement);
                if parsed.statement is End {
                    Ok(next)
                } else {
                    layout_from(ts, pos + 1 + parsed.tail, next)
                }
            },
        }
    } else {
        Ok(layout)
    }
}

/// The number that a label at word `target` of the program stands for in
/// `instruction`, which is word `index` of the program. Where the operand is
/// an offset from the program counter, it is the distance from the word
/// behind the instruction to the label; otherwise it is the address of the
/// label.
pub open spec fn label_value(
    instruction: Instruction,
    layout: Layout,
    target: u32,
    index: nat,
) -> int {
    if instruction.spec_is_pc_relative() {
        target - (index + 1)
    } else {
        layout.base() + target
    }
}

/// Whether `value` is one that a label may stand for in `instruction`: an
/// offset is a signed 16-bit number, an address an unsigned one.
pub open spec fn value_in_range(instruction: Instruction, value: int) -> bool {
    if instruction.spec_is_pc_relative() {
        -0x8000 <= value <= 0x7FFF
    } else {
        0 <= value <= 0xFFFF
    }
}

/// `value` as a word, in two's complement where it is negative.
pub open spec fn word_of(value: int) -> u16 {
    if value < 0 {
        (value + 0x10000) as u16
    } else {
        value as u16
    }
}

/// The word of `instruction`, if its operand fits its field.
pub open spec fn spec_encode_checked(instruction: Instruction) -> Result<u16, Seq<char>> {
    if instruction.encodable() {
        Ok(instruction.spec_encode())
    } else {
        Err("value does not fit its field"@)
    }
}

/// The word of `instruction`, which is word `index` of the program, with
/// `label` resolved. The label must have been declared, and must stand before
/// a word of the program; the number that it stands for must fit the field
/// of the instruction, as any operand must.
pub open spec fn spec_resolve(
    instruction: Instruction,
    label: Option<Seq<char>>,
    layout: Layout,
    index: nat,
) -> Result<u16, Seq<char>> {
    match label {
        None => spec_encode_checked(instruction),
        Some(name) => if !layout.labels.contains_key(name) {
            Err("undefined label: "@ + name)
        } else {
            let target = layout.line_starts[layout.labels[name] as int];
            let value = label_value(instruction, layout, target, index);
            if target >= layout.size {
                Err("label outside the program: "@ + name)
            } else if !value_in_range(instruction, value) {
                Err("value does not fit its field"@)
            } else {
                spec_encode_checked(instruction.spec_with_operand(word_of(value)))
            }
        },
    }
}

/// The second pass, from `pos` on, with `emitted` written so far: the words
/// of the program, or the first instruction that cannot be written.
pub open spec fn emit_from(
    ts: Seq<TokenView>,
    pos: int,
    layout: Layout,
    emitted: Seq<u16>,
) -> Result<Seq<u16>, Seq<char>>
    decreases ts.len() - pos,
{
    if 0 <= pos < ts.len() {
        proof {
            lemma_statement_bounds(ts, pos);
        }
        match statement_at(ts, pos) {
            Err(message) => Err(message),
            Ok(parsed) => match parsed.statement {
                StatementView::End => Ok(emitted),
                StatementView::Data { words } => emit_from(
                    ts,
                    pos + 1 + parsed.tail,
                    layout,
                    emitted + words,
                ),
                StatementView::Code { instruction, label } => match spec_resolve(
                    instruction,
                    label,
                    layout,
                    emitted.len(),
                ) {
                    Err(message) => Err(message),
                    Ok(word) => emit_from(ts, pos + 1 + parsed.tail, layout, emitted.push(word)),
                },
                _ => emit_from(ts, pos + 1 + parsed.tail, layout, emitted),
            },
        }
    } else {
        Ok(emitted)
    }
}

/// The words that `ts` assembles to, or why it assembles to none. The first
/// pass reads every statement up to `.END` and fails at the first that is
/// none; the second writes the words and fails at the first instruction that
/// cannot be written.
pub open spec fn spec_parse(ts: Seq<TokenView>) -> Result<Seq<u16>, Seq<char>> {
    match layout_from(ts, 0, Layout::start()) {
        Err(message) => Err(message),
        Ok(layout) => emit_from(ts, 0, layout, Seq::empty()),
    }
}

/// The address that the last `.ORIG` of `ts` gives, if the first pass gets
/// through `ts` and meets one.
pub open spec fn spec_origin(ts: Seq<TokenView>) -> Option<u16> {
    match layout_from(ts, 0, Layout::start()) {
        Err(_) => None,
        Ok(layout) => layout.origin,
    }
}

/// The size of a program of `size` words after `words` more.
fn grow(size: u32, words: usize) -> (grown: u32)
    requires
        size <= 0x10000,
    ensures
        grown == spec_grow(size, words as nat),
        grown <= 0x10000,
{
    if words >= 0x10000 || size as usize + words >= 0x10000 {
        0x10000
    } else {
        size + words as u32
    }
}

/// The word of `instruction`, if its operand fits its field.
fn encode_checked(instruction: Instruction) -> (result: Result<u16, ParseError>)
    ensures
        match spec_encode_checked(instruction) {
            Ok(word) => result == Ok::<u16, ParseError>(word),
            Err(message) => result matches Err(found) && found@ == message,
        },
{
    if instruction.is_encodable() {
        Ok(instruction.encode())
    } else {
        Err(error("value does not fit its field"))
    }
}

impl Parser {
    /// What the parser has found out about the program so far.
    pub closed spec fn layout(&self) -> Layout {
        Layout {
            labels: self.labels@,
            line_starts: self.line_starts@,
            origin: self.orig,
            size: self.size,
        }
    }

    /// The first pass: starts afresh at the first token, reads every
    /// statement, binds each label to its line and notes how many words stand
    /// before each line. Goes back to the first token at the end. A statement
    /// that is none ends the pass, and no origin is kept.
    fn find_labels(&mut self) -> (result: Result<(), ParseError>)
        ensures
            final(self).reader.wf(),
            final(self).tokens() == old(self).tokens(),
            final(self).instructions == old(self).instructions,
            match layout_from(old(self).tokens(), 0, Layout::start()) {
                Ok(layout) => {
                    &&& result is Ok
                    &&& final(self).layout() == layout
                    &&& layout.wf()
                    &&& final(self).position() == 0
                },
                Err(message) => {
                    &&& result matches Err(found)
                    &&& found@ == message
                    &&& final(self).origin_view() is None
                },
            },
    {
        let ghost ts = self.tokens();
        self.reader.reset();
        self.labels.clear();
        self.line_starts = vec![0u32];
        self.size = 0;
        self.orig = None;
        proof {
            assert(self.line_starts@ =~= seq![0u32]);
            assert(self.layout() == Layout::start());
        }
        loop
            invariant_except_break
                self.reader.line_number() == self.layout().line(),
                layout_from(ts, 0, Layout::start()) == layout_from(
                    ts,
                    self.position(),
                    self.layout(),
                ),
            invariant
                self.reader.wf(),
                self.reader.items() == old(self).reader.items(),
                self.tokens() == ts,
                ts == old(self).tokens(),
                self.instructions == old(self).instructions,
                self.layout().wf(),
                0 <= self.position() <= ts.len(),
            ensures
                self.reader.wf(),
                self.tokens() == ts,
                self.instructions == old(self).instructions,
                self.layout().wf(),
                layout_from(ts, 0, Layout::start()) == Ok::<Layout, Seq<char>>(self.layout()),
            decreases ts.len() - self.position(),
        {
            proof {
                self.reader.lemma_wf();
            }
            if self.reader.at_end() {
                break ;
            }
            let ghost pos = self.position();
            let ghost before = self.layout();
            let line = self.reader.line();
            if self.reader.item_in_line() == 0 {
                match self.reader.peek() {
                    Some(Token { kind: TokenKind::Symbol(label), .. }) => {
                        // a symbol at position 0 in the line is a label
                        // rather than a reference to a label
                        self.labels.insert(label, line);
                    },
                    _ => {},
                }
            }
            proof {
                lemma_line_start(self.reader.items(), pos);
                assert(self.layout() == declare(ts, pos, before));
            }
            match self.statement() {
                Err(error) => {
                    self.orig = None;
                    return Err(error);
                },
                Ok(statement) => {
                    proof {
                        self.reader.lemma_wf();
                    }
                    match statement {
                        Statement::End => {
                            break ;
                        },
                        Statement::Origin { address } => {
                            self.orig = Some(address);
                        },
                        Statement::Data { words } => {
                            self.size = grow(self.size, words.len());
                        },
                        Statement::Code { .. } => {
                            self.size = grow(self.size, 1);
                        },
                        Statement::Inert => {
                            if self.reader.line() > line {
                                self.line_starts.push(self.size);
                            }
                        },
                    }
                },
            }
        }
        self.reader.reset();
        Ok(())
    }

    /// The word of `instruction`, which is to be word `index` of the
    /// program, with `label` resolved.
    fn resolve(&self, instruction: Instruction, label: &Option<String>, index: usize) -> (result:
        Result<u16, ParseError>)
        requires
            self.layout().wf(),
        ensures
            match spec_resolve(instruction, label_view(*label), self.layout(), index as nat) {
                Ok(word) => result == Ok::<u16, ParseError>(word),
                Err(message) => result matches Err(found) && found@ == message,
            },
    {
        match label {
            None => encode_checked(instruction),
            Some(name) => match self.labels.get(name) {
                None => Err(error_with_name("undefined label: ", name.as_str())),
                Some(line) => {
                    let target = self.line_starts[line];
                    if target >= self.size {
                        Err(error_with_name("label outside the program: ", name.as_str()))
                    } else if instruction.is_pc_relative() {
                        if index >= 0x20000 {
                            Err(error("value does not fit its field"))
                        } else {
                            let value: i64 = target as i64 - (index as i64 + 1);
                            if value < -0x8000 || value > 0x7FFF {
                                Err(error("value does not fit its field"))
                            } else if value < 0 {
                                encode_checked(instruction.with_operand((value + 0x10000) as u16))
                            } else {
                                encode_checked(instruction.with_operand(value as u16))
                            }
                        }
                    } else {
                        let base: u16 = match self.orig {
                            Some(address) => address,
                            None => 0,
                        };
                        let value: u32 = base as u32 + target;
                        if value > 0xFFFF {
                            Err(error("value does not fit its field"))
                        } else {
                            encode_checked(instruction.with_operand(value as u16))
                        }
                    }
                },
            },
        }
    }

    /// Assembles the tokens: the words of the program, or the first error.
    /// The field `orig` then holds the address that the last `.ORIG` gave.
    pub fn parse(&mut self) -> (result: Result<Vec<u16>, ParseError>)
        requires
            old(self).wf(),
        ensures
            final(self).wf(),
            final(self).tokens() == old(self).tokens(),
            match spec_parse(old(self).tokens()) {
                Ok(words) => result matches Ok(found) && found@ == words,
                Err(message) => result matches Err(found) && found@ == message,
            },
            final(self).origin_view() == spec_origin(old(self).tokens()),
    {
        let ghost ts = self.tokens();
        self.instructions = Vec::new();
        match self.find_labels() {
            Err(error) => {
                return Err(error);
            },
            Ok(()) => {},
        }
        let ghost layout = self.layout();
        loop
            invariant_except_break
                emit_from(ts, 0, layout, Seq::empty()) == emit_from(
                    ts,
                    self.position(),
                    layout,
                    self.instructions@,
                ),
            invariant
                self.reader.wf(),
                self.tokens() == ts,
                ts == old(self).tokens(),
                self.layout() == layout,
                layout.wf(),
                layout_from(ts, 0, Layout::start()) == Ok::<Layout, Seq<char>>(layout),
                0 <= self.position() <= ts.len(),
            ensures
                self.reader.wf(),
                self.tokens() == ts,
                self.layout() == layout,
                emit_from(ts, 0, layout, Seq::empty()) == Ok::<Seq<u16>, Seq<char>>(
                    self.instructions@,
                ),
            decreases ts.len() - self.position(),
        {
            proof {
                self.reader.lemma_wf();
            }
            if self.reader.at_end() {
                break ;
            }
            match self.statement() {
                Err(error) => {
                    return Err(error);
                },
                Ok(statement) => {
                    proof {
                        self.reader.lemma_wf();
                    }
                    match statement {
                        Statement::End => {
                            break ;
                        },
                        Statement::Data { words } => {
                            let mut words = words;
                            self.instructions.append(&mut words);
                        },
                        Statement::Code { instruction, label } => {
                            match self.resolve(instruction, &label, self.instructions.len()) {
                                Err(error) => {
                                    return Err(error);
                                },
                                Ok(word) => {
                                    self.instructions.push(word);
                                },
                            }
                        },
                        _ => {},
                    }
                },
            }
        }
        Ok(self.instructions.clone())
    }
}

/// Assembles `tokens`: the words of the program, or the first error.
pub fn parse(tokens: Vec<Token>) -> (result: Result<Vec<u16>, ParseError>)
    ensures
        match spec_parse(token_views(tokens@)) {
            Ok(words) => result matches Ok(found) && found@ == words,
            Err(message) => result matches Err(found) && found@ == message,
        },
{
    Parser::new(tokens).parse()
}

} // verus!
