//! What holds of the parser for every program of a given shape.
use vstd::prelude::*;

use super::lexer::{TokenKindView, TokenView};
use super::names::{folded, is_ascii_text, spec_ascii_lower, spec_directive, Directive};
use super::parser::{
    emit_from, label_value, layout_from, spec_char_word, spec_parse, spec_resolve, statement_at,
    word_of, Layout, Parsed, StatementView,
};
use crate::lc3::instructions::{lemma_decode_encode, Instruction};

verus! {

/// A token of kind `kind`. Where it stands in the source text is nothing to
/// the parser.
pub open spec fn token(kind: TokenKindView) -> TokenView {
    TokenView { kind, offset: 0 }
}

/// A program that is one statement of data assembles to that data.
proof fn lemma_one_data_statement(ts: Seq<TokenView>, words: Seq<u16>)
    requires
        ts.len() == 2,
        statement_at(ts, 0) == Ok::<Parsed, Seq<char>>(
            Parsed { statement: StatementView::Data { words }, tail: 1 },
        ),
    ensures
        spec_parse(ts) == Ok::<Seq<u16>, Seq<char>>(words),
{
    reveal_with_fuel(layout_from, 2);
    reveal_with_fuel(emit_from, 2);
    assert(Seq::<u16>::empty() + words =~= words);
}

/// `.STRINGZ` gives one word for each character of its string, the code of
/// the character, and a word of 0 behind them.
pub proof fn lemma_parse_stringz(name: Seq<char>, content: Seq<char>)
    requires
        spec_directive(name) == Some(Directive::Stringz),
    ensures
        spec_parse(
            seq![token(TokenKindView::Directive(name)), token(TokenKindView::Str(content))],
        ) == Ok::<Seq<u16>, Seq<char>>(
            content.map_values(|c: char| spec_char_word(c)).push(0u16),
        ),
{
    let ts = seq![token(TokenKindView::Directive(name)), token(TokenKindView::Str(content))];
    lemma_one_data_statement(ts, content.map_values(|c: char| spec_char_word(c)).push(0u16));
}

/// `.BLKW` gives as many words of 0 as its number says.
pub proof fn lemma_parse_blkw(name: Seq<char>, count: u16)
    requires
        spec_directive(name) == Some(Directive::Blkw),
    ensures
        spec_parse(
            seq![token(TokenKindView::Directive(name)), token(TokenKindView::Number(count))],
        ) == Ok::<Seq<u16>, Seq<char>>(Seq::new(count as nat, |i: int| 0u16)),
{
    let ts = seq![token(TokenKindView::Directive(name)), token(TokenKindView::Number(count))];
    lemma_one_data_statement(ts, Seq::new(count as nat, |i: int| 0u16));
}

/// What follows `.END` is ignored: a `.FILL` with its number, then `.END`,
/// then any tokens at all assemble to the one word of the `.FILL`.
pub proof fn lemma_parse_stops_at_end(
    fill: Seq<char>,
    word: u16,
    end: Seq<char>,
    rest: Seq<TokenView>,
)
    requires
        spec_directive(fill) == Some(Directive::Fill),
        spec_directive(end) == Some(Directive::End),
    ensures
        spec_parse(
            seq![
                token(TokenKindView::Directive(fill)),
                token(TokenKindView::Number(word)),
                token(TokenKindView::Directive(end)),
            ] + rest,
        ) == Ok::<Seq<u16>, Seq<char>>(seq![word]),
{
    let ts = seq![
        token(TokenKindView::Directive(fill)),
        token(TokenKindView::Number(word)),
        token(TokenKindView::Directive(end)),
    ] + rest;
    reveal_with_fuel(layout_from, 2);
    reveal_with_fuel(emit_from, 2);
    assert(statement_at(ts, 0) == Ok::<Parsed, Seq<char>>(
        Parsed { statement: StatementView::Data { words: seq![word] }, tail: 1 },
    ));
    assert(statement_at(ts, 2) == Ok::<Parsed, Seq<char>>(
        Parsed { statement: StatementView::End, tail: 0 },
    ));
    assert(Seq::<u16>::empty() + seq![word] =~= seq![word]);
}

/// `.FILL` needs a literal behind it: with nothing behind it the input ends
/// too soon, and with a token that is neither a number nor a string it lacks
/// its number.
pub proof fn lemma_parse_fill_needs_a_number(fill: Seq<char>, rest: Seq<TokenView>)
    requires
        spec_directive(fill) == Some(Directive::Fill),
    ensures
        rest.len() == 0 ==> spec_parse(seq![token(TokenKindView::Directive(fill))] + rest)
            == Err::<Seq<u16>, Seq<char>>("unexpected end of input"@),
        rest.len() > 0 && !(rest[0].kind is Number) && !(rest[0].kind is Str) ==> spec_parse(
            seq![token(TokenKindView::Directive(fill))] + rest,
        ) == Err::<Seq<u16>, Seq<char>>("expected a number"@),
{
    let ts = seq![token(TokenKindView::Directive(fill))] + rest;
    reveal_with_fuel(layout_from, 1);
    if rest.len() > 0 {
        assert(ts[1] == rest[0]);
    }
}

/// A word that the second pass writes for an instruction decodes to that
/// instruction, with the value of its label in the place of its operand.
pub proof fn lemma_resolved_word_decodes(
    instruction: Instruction,
    label: Option<Seq<char>>,
    layout: Layout,
    index: nat,
)
    ensures
        spec_resolve(instruction, label, layout, index) matches Ok(word) ==> {
            let written = Instruction::spec_from(word);
            match label {
                None => written == instruction,
                Some(name) => {
                    let target = layout.line_starts[layout.labels[name] as int];
                    written == instruction.spec_with_operand(
                        word_of(label_value(instruction, layout, target, index)),
                    )
                },
            }
        },
{
    match label {
        None => {
            if instruction.encodable() {
                lemma_decode_encode(instruction);
            }
        },
        Some(name) => {
            let target = layout.line_starts[layout.labels[name] as int];
            let filled = instruction.spec_with_operand(
                word_of(label_value(instruction, layout, target, index)),
            );
            if filled.encodable() {
                lemma_decode_encode(filled);
            }
        },
    }
}

/// A text of small ASCII letters stays as it is when capitals are made
/// small.
proof fn lemma_folded_small(text: Seq<char>)
    requires
        forall|i: int| 0 <= i < text.len() ==> 'a' <= #[trigger] text[i] <= 'z',
    ensures
        folded(text) == text,
{
    assert(is_ascii_text(text));
    assert(text.map_values(|c: char| spec_ascii_lower(c)) =~= text);
}

/// The names of the directives, as they are commonly written.
pub proof fn lemma_directive_names()
    ensures
        spec_directive("orig"@) == Some(Directive::Orig),
        spec_directive("fill"@) == Some(Directive::Fill),
        spec_directive("stringz"@) == Some(Directive::Stringz),
        spec_directive("blkw"@) == Some(Directive::Blkw),
        spec_directive("end"@) == Some(Directive::End),
        spec_directive("ORIG"@) == Some(Directive::Orig),
        spec_directive("FILL"@) == Some(Directive::Fill),
        spec_directive("STRINGZ"@) == Some(Directive::Stringz),
        spec_directive("BLKW"@) == Some(Directive::Blkw),
        spec_directive("END"@) == Some(Directive::End),
{
    reveal_strlit("orig");
    reveal_strlit("fill");
    reveal_strlit("stringz");
    reveal_strlit("blkw");
    reveal_strlit("end");
    reveal_strlit("ORIG");
    reveal_strlit("FILL");
    reveal_strlit("STRINGZ");
    reveal_strlit("BLKW");
    reveal_strlit("END");
    lemma_folded_small("orig"@);
    lemma_folded_small("fill"@);
    lemma_folded_small("stringz"@);
    lemma_folded_small("blkw"@);
    lemma_folded_small("end"@);
    assert(is_ascii_text("ORIG"@) && is_ascii_text("FILL"@) && is_ascii_text("STRINGZ"@)
        && is_ascii_text("BLKW"@) && is_ascii_text("END"@));
    assert("ORIG"@.map_values(|c: char| spec_ascii_lower(c)) =~= "orig"@);
    assert("FILL"@.map_values(|c: char| spec_ascii_lower(c)) =~= "fill"@);
    assert("STRINGZ"@.map_values(|c: char| spec_ascii_lower(c)) =~= "stringz"@);
    assert("BLKW"@.map_values(|c: char| spec_ascii_lower(c)) =~= "blkw"@);
    assert("END"@.map_values(|c: char| spec_ascii_lower(c)) =~= "end"@);
    assert("fill"@[0] != "orig"@[0]);
    assert("blkw"@[0] != "orig"@[0]);
    assert("blkw"@[0] != "fill"@[0]);
}

} // verus!
