//! Pieces of text that diagnostics are made of: numbers in decimal, one line
//! of a source text, padding.
use vstd::prelude::*;

use super::chars::chars_of;
use super::reader::{lemma_run_end, run_end};

verus! {

/// The digit for `value`, which is below 10.
pub open spec fn spec_digit(value: nat) -> char {
    (('0' as u8) + value) as char
}

/// `n` written in decimal, without leading zeros.
pub open spec fn decimal(n: nat) -> Seq<char>
    decreases n,
{
    if n < 10 {
        seq![spec_digit(n)]
    } else {
        decimal(n / 10).push(spec_digit(n % 10))
    }
}

/// Accepts everything but the line feed.
pub open spec fn within_line() -> spec_fn(char) -> bool {
    |c: char| c != '\n'
}

/// Line number `line` of `src`, counted from 0, without the line feed that
/// ends it and without a carriage return before that line feed. Empty where
/// `src` has no such line.
pub open spec fn nth_line(src: Seq<char>, line: nat) -> Seq<char>
    decreases line,
{
    let end = run_end(src, 0, within_line());
    if line == 0 {
        if end < src.len() && end > 0 && src[end - 1] == '\r' {
            src.subrange(0, end - 1)
        } else {
            src.subrange(0, end)
        }
    } else if end < src.len() {
        nth_line(src.skip(end + 1), (line - 1) as nat)
    } else {
        Seq::empty()
    }
}

/// `text` with a space in place of each tab.
pub open spec fn without_tabs(text: Seq<char>) -> Seq<char> {
    text.map_values(
        |c: char|
            if c == '\t' {
                ' '
            } else {
                c
            },
    )
}

/// `count` spaces.
pub open spec fn spaces(count: nat) -> Seq<char> {
    Seq::new(count, |i: int| ' ')
}

/// Appends the characters of `text` to `out`.
pub fn push_text(out: &mut Vec<char>, text: &str)
    ensures
        final(out)@ == old(out)@ + text@,
{
    let mut chars = chars_of(text);
    out.append(&mut chars);
}

/// Appends `chars` to `out`.
pub fn push_chars(out: &mut Vec<char>, chars: &Vec<char>)
    ensures
        final(out)@ == old(out)@ + chars@,
{
    let mut index: usize = 0;
    proof {
        assert(old(out)@ + chars@.take(0) =~= old(out)@);
    }
    while index < chars.len()
        invariant
            index <= chars.len(),
            out@ == old(out)@ + chars@.take(index as int),
        decreases chars.len() - index,
    {
        out.push(chars[index]);
        proof {
            assert(old(out)@ + chars@.take(index + 1) =~= (old(out)@ + chars@.take(
                index as int,
            )).push(chars@[index as int]));
        }
        index += 1;
    }
    proof {
        assert(chars@.take(index as int) =~= chars@);
    }
}

/// Appends `n`, written in decimal, to `out`.
pub fn push_decimal(out: &mut Vec<char>, n: usize)
    ensures
        final(out)@ == old(out)@ + decimal(n as nat),
    decreases n,
{
    if n >= 10 {
        push_decimal(out, n / 10);
    }
    let digit = ((n % 10) as u8 + ('0' as u8)) as char;
    out.push(digit);
    proof {
        if n >= 10 {
            assert(old(out)@ + decimal(n as nat) =~= (old(out)@ + decimal((n / 10) as nat)).push(
                digit,
            ));
        } else {
            assert(old(out)@ + decimal(n as nat) =~= old(out)@.push(digit));
        }
    }
}

/// Appends `count` spaces to `out`.
pub fn push_spaces(out: &mut Vec<char>, count: usize)
    ensures
        final(out)@ == old(out)@ + spaces(count as nat),
{
    let mut done: usize = 0;
    proof {
        assert(old(out)@ + spaces(0) =~= old(out)@);
    }
    while done < count
        invariant
            done <= count,
            out@ == old(out)@ + spaces(done as nat),
        decreases count - done,
    {
        out.push(' ');
        done += 1;
        proof {
            assert(old(out)@ + spaces(done as nat) =~= (old(out)@ + spaces((done - 1) as nat)).push(
                ' ',
            ));
        }
    }
}

/// Appends `text` to `out`, with a space in place of each tab.
pub fn push_without_tabs(out: &mut Vec<char>, text: &Vec<char>)
    ensures
        final(out)@ == old(out)@ + without_tabs(text@),
{
    let mut index: usize = 0;
    proof {
        assert(old(out)@ + without_tabs(text@.take(0)) =~= old(out)@);
    }
    while index < text.len()
        invariant
            index <= text.len(),
            out@ == old(out)@ + without_tabs(text@.take(index as int)),
        decreases text.len() - index,
    {
        let c = text[index];
        let shown = if c == '\t' {
            ' '
        } else {
            c
        };
        out.push(shown);
        proof {
            let before = text@.take(index as int);
            assert(text@.take(index + 1) =~= before.push(c));
            assert(without_tabs(before.push(c)) =~= without_tabs(before).push(shown));
            assert(old(out)@ + without_tabs(text@.take(index + 1)) =~= (old(out)@ + without_tabs(
                before,
            )).push(shown));
        }
        index += 1;
    }
    proof {
        assert(text@.take(index as int) =~= text@);
    }
}

/// Line number `line` of `src`.
pub fn line_text(src: &Vec<char>, line: usize) -> (text: Vec<char>)
    ensures
        text@ == nth_line(src@, line as nat),
{
    let mut start: usize = 0;
    let mut current: usize = 0;
    proof {
        assert(src@.skip(0) =~= src@);
    }
    loop
        invariant
            start <= src.len(),
            current <= line,
            nth_line(src@, line as nat) == nth_line(
                src@.skip(start as int),
                (line - current) as nat,
            ),
        decreases src.len() - start,
    {
        let ghost rest = src@.skip(start as int);
        let mut end: usize = start;
        while end < src.len() && src[end] != '\n'
            invariant
                start <= end <= src.len(),
                forall|i: int| start <= i < end ==> src@[i] != '\n',
            decreases src.len() - end,
        {
            end += 1;
        }
        proof {
            assert forall|i: int| 0 <= i < end - start implies within_line()(
                #[trigger] rest[i],
            ) by {
                assert(rest[i] == src@[start + i]);
            }
            lemma_run_end(rest, 0, within_line(), end - start);
        }
        if current == line {
            let stop = if end < src.len() && end > start && src[end - 1] == '\r' {
                end - 1
            } else {
                end
            };
            let mut text: Vec<char> = Vec::new();
            let mut index: usize = start;
            while index < stop
                invariant
                    start <= index <= stop <= src.len(),
                    text@ == src@.subrange(start as int, index as int),
                decreases stop - index,
            {
                text.push(src[index]);
                index += 1;
                proof {
                    assert(src@.subrange(start as int, index as int) =~= src@.subrange(
                        start as int,
                        index - 1,
                    ).push(src@[index - 1]));
                }
            }
            proof {
                assert(rest.subrange(0, stop - start) =~= src@.subrange(start as int, stop as int));
            }
            return text;
        }
        if end >= src.len() {
            return Vec::new();
        }
        proof {
            assert(rest.skip(end - start + 1) =~= src@.skip(end + 1));
        }
        start = end + 1;
        current += 1;
    }
}

} // verus!
