//! The names that the assembler knows: directives, mnemonics and registers.
//! Letters count alike in either case.
use vstd::prelude::*;

use super::chars::{chars_of, is_ascii};

verus! {

/// What `str::to_lowercase` gives for `text`: its lowercase form by the
/// Unicode tables.
pub uninterp spec fn unicode_lowercase(text: Seq<char>) -> Seq<char>;

/// `str::to_lowercase` maps each character by the Unicode tables, one
/// character to one or more: what comes out depends on the text alone.
#[verifier::external_body]
fn to_lowercase(text: &str) -> (lower: String)
    ensures
        lower@ == unicode_lowercase(text@),
{
    text.to_lowercase()
}

/// Whether every character of `text` is an ASCII character.
pub open spec fn is_ascii_text(text: Seq<char>) -> bool {
    forall|i: int| 0 <= i < text.len() ==> is_ascii(#[trigger] text[i])
}

/// An ASCII capital as the small letter; any other character as it is.
pub open spec fn spec_ascii_lower(c: char) -> char {
    if 'A' <= c && c <= 'Z' {
        ((c as u8) + 32) as char
    } else {
        c
    }
}

/// `text` with every capital made small, which is how names are compared. In
/// an ASCII text the letters `A` to `Z` become `a` to `z`; any other text
/// has the lowercase form that Unicode gives it.
pub open spec fn folded(text: Seq<char>) -> Seq<char> {
    if is_ascii_text(text) {
        text.map_values(|c: char| spec_ascii_lower(c))
    } else {
        unicode_lowercase(text)
    }
}

/// An ASCII capital as the small letter; any other character as it is.
pub fn ascii_lower(c: char) -> (lower: char)
    ensures
        lower == spec_ascii_lower(c),
{
    if 'A' <= c && c <= 'Z' {
        ((c as u8) + 32) as char
    } else {
        c
    }
}

/// `text` with every capital made small.
pub fn fold(text: &str) -> (lower: Vec<char>)
    ensures
        lower@ == folded(text@),
{
    let chars = chars_of(text);
    let mut lower: Vec<char> = Vec::new();
    let mut index: usize = 0;
    while index < chars.len()
        invariant
            index <= chars.len(),
            chars@ == text@,
            lower@ == chars@.take(index as int).map_values(|c: char| spec_ascii_lower(c)),
            is_ascii_text(chars@.take(index as int)),
        decreases chars.len() - index,
    {
        let c = chars[index];
        if c > '\x7f' {
            proof {
                assert(!is_ascii(text@[index as int]));
            }
            return chars_of(to_lowercase(text).as_str());
        }
        lower.push(ascii_lower(c));
        proof {
            let before = chars@.take(index as int);
            let after = chars@.take(index + 1);
            assert(after =~= before.push(c));
            assert(after.map_values(|c: char| spec_ascii_lower(c)) =~= before.map_values(
                |c: char| spec_ascii_lower(c),
            ).push(spec_ascii_lower(c)));
        }
        index += 1;
    }
    proof {
        assert(chars@.take(index as int) =~= chars@);
    }
    lower
}

/// Whether `chars` spells `word`.
pub fn spells(chars: &Vec<char>, word: &str) -> (same: bool)
    ensures
        same == (chars@ == word@),
{
    let mut index: usize = 0;
    for c in it: word.chars()
        invariant
            it.seq() == word@,
            index == it.index(),
            index <= chars.len(),
            chars@.take(index as int) == word@.take(index as int),
    {
        if index >= chars.len() || chars[index] != c {
            proof {
                if chars@ == word@ {
                    assert(chars@[index as int] == c);
                }
            }
            return false;
        }
        proof {
            assert(chars@.take(index + 1) =~= chars@.take(index as int).push(chars@[index as int]));
            assert(word@.take(index + 1) =~= word@.take(index as int).push(c));
        }
        index += 1;
    }
    proof {
        assert(word@.take(index as int) =~= word@);
        if index == chars.len() {
            assert(chars@.take(index as int) =~= chars@);
        }
    }
    index == chars.len()
}

/// The directives.
#[derive(Clone, Copy, Debug, PartialEq, Eq, Structural)]
pub enum Directive {
    Orig,
    Fill,
    Stringz,
    Blkw,
    End,
}

/// The directive that `name` names, if it names one.
pub open spec fn spec_directive(name: Seq<char>) -> Option<Directive> {
    let lower = folded(name);
    if lower == "orig"@ {
        Some(Directive::Orig)
    } else if lower == "fill"@ {
        Some(Directive::Fill)
    } else if lower == "stringz"@ {
        Some(Directive::Stringz)
    } else if lower == "blkw"@ {
        Some(Directive::Blkw)
    } else if lower == "end"@ {
        Some(Directive::End)
    } else {
        None
    }
}

/// The directive that `name` names, if it names one.
pub fn directive(name: &str) -> (found: Option<Directive>)
    ensures
        found == spec_directive(name@),
{
    let lower = fold(name);
    if spells(&lower, "orig") {
        Some(Directive::Orig)
    } else if spells(&lower, "fill") {
        Some(Directive::Fill)
    } else if spells(&lower, "stringz") {
        Some(Directive::Stringz)
    } else if spells(&lower, "blkw") {
        Some(Directive::Blkw)
    } else if spells(&lower, "end") {
        Some(Directive::End)
    } else {
        None
    }
}

/// The operations that have a mnemonic. A branch carries the condition codes
/// that its mnemonic names: `BR` alone names all three.
#[derive(Clone, Copy, Debug, PartialEq, Eq, Structural)]
pub enum Mnemonic {
    Add,
    And,
    Br { n: bool, z: bool, p: bool },
    Jmp,
    Jsr,
    Ld,
    Ldi,
    Ldr,
    Lea,
    Not,
    Rti,
    St,
    Sti,
    Str,
    Trap,
}

/// The operation that `name` names, if it names one.
pub open spec fn spec_mnemonic(name: Seq<char>) -> Option<Mnemonic> {
    let lower = folded(name);
    if lower == "add"@ {
        Some(Mnemonic::Add)
    } else if lower == "and"@ {
        Some(Mnemonic::And)
    } else if lower == "br"@ || lower == "brnzp"@ {
        Some(Mnemonic::Br { n: true, z: true, p: true })
    } else if lower == "brn"@ {
        Some(Mnemonic::Br { n: true, z: false, p: false })
    } else if lower == "brz"@ {
        Some(Mnemonic::Br { n: false, z: true, p: false })
    } else if lower == "brp"@ {
        Some(Mnemonic::Br { n: false, z: false, p: true })
    } else if lower == "brnz"@ {
        Some(Mnemonic::Br { n: true, z: true, p: false })
    } else if lower == "brnp"@ {
        Some(Mnemonic::Br { n: true, z: false, p: true })
    } else if lower == "brzp"@ {
        Some(Mnemonic::Br { n: false, z: true, p: true })
    } else if lower == "jmp"@ {
        Some(Mnemonic::Jmp)
    } else if lower == "jsr"@ {
        Some(Mnemonic::Jsr)
    } else if lower == "ld"@ {
        Some(Mnemonic::Ld)
    } else if lower == "ldi"@ {
        Some(Mnemonic::Ldi)
    } else if lower == "ldr"@ {
        Some(Mnemonic::Ldr)
    } else if lower == "lea"@ {
        Some(Mnemonic::Lea)
    } else if lower == "not"@ {
        Some(Mnemonic::Not)
    } else if lower == "rti"@ {
        Some(Mnemonic::Rti)
    } else if lower == "st"@ {
        Some(Mnemonic::St)
    } else if lower == "sti"@ {
        Some(Mnemonic::Sti)
    } else if lower == "str"@ {
        Some(Mnemonic::Str)
    } else if lower == "trap"@ {
        Some(Mnemonic::Trap)
    } else {
        None
    }
}

/// The operation that `name` names, if it names one.
pub fn mnemonic(name: &str) -> (found: Option<Mnemonic>)
    ensures
        found == spec_mnemonic(name@),
{
    let lower = fold(name);
    if spells(&lower, "add") {
        Some(Mnemonic::Add)
    } else if spells(&lower, "and") {
        Some(Mnemonic::And)
    } else if spells(&lower, "br") || spells(&lower, "brnzp") {
        Some(Mnemonic::Br { n: true, z: true, p: true })
    } else if spells(&lower, "brn") {
        Some(Mnemonic::Br { n: true, z: false, p: false })
    } else if spells(&lower, "brz") {
        Some(Mnemonic::Br { n: false, z: true, p: false })
    } else if spells(&lower, "brp") {
        Some(Mnemonic::Br { n: false, z: false, p: true })
    } else if spells(&lower, "brnz") {
        Some(Mnemonic::Br { n: true, z: true, p: false })
    } else if spells(&lower, "brnp") {
        Some(Mnemonic::Br { n: true, z: false, p: true })
    } else if spells(&lower, "brzp") {
        Some(Mnemonic::Br { n: false, z: true, p: true })
    } else if spells(&lower, "jmp") {
        Some(Mnemonic::Jmp)
    } else if spells(&lower, "jsr") {
        Some(Mnemonic::Jsr)
    } else if spells(&lower, "ld") {
        Some(Mnemonic::Ld)
    } else if spells(&lower, "ldi") {
        Some(Mnemonic::Ldi)
    } else if spells(&lower, "ldr") {
        Some(Mnemonic::Ldr)
    } else if spells(&lower, "lea") {
        Some(Mnemonic::Lea)
    } else if spells(&lower, "not") {
        Some(Mnemonic::Not)
    } else if spells(&lower, "rti") {
        Some(Mnemonic::Rti)
    } else if spells(&lower, "st") {
        Some(Mnemonic::St)
    } else if spells(&lower, "sti") {
        Some(Mnemonic::Sti)
    } else if spells(&lower, "str") {
        Some(Mnemonic::Str)
    } else if spells(&lower, "trap") {
        Some(Mnemonic::Trap)
    } else {
        None
    }
}

/// The number of the register that `name` names, if it names one: `R0` to
/// `R7`.
pub open spec fn spec_register(name: Seq<char>) -> Option<u16> {
    let lower = folded(name);
    if lower.len() == 2 && lower[0] == 'r' && '0' <= lower[1] && lower[1] <= '7' {
        Some((lower[1] as u16 - '0' as u16) as u16)
    } else {
        None
    }
}

/// The number of the register that `name` names, if it names one.
pub fn register(name: &str) -> (found: Option<u16>)
    ensures
        found == spec_register(name@),
        found matches Some(number) ==> number < 8,
{
    let lower = fold(name);
    if lower.len() == 2 && lower[0] == 'r' && '0' <= lower[1] && lower[1] <= '7' {
        Some((lower[1] as u8 - '0' as u8) as u16)
    } else {
        None
    }
}

} // verus!
