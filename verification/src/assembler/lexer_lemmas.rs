//! What holds of the lexer for every source text.
use vstd::prelude::*;

use super::chars::{spec_is_alphanumeric, spec_is_blank};
use super::lexer::{
    alphanumeric, blank, lemma_scan_advances, lex_from, literal_error, not_newline, not_quote,
    scan, scan_decimal, spec_lex, symbol_char, LexErrorView, Scan, TokenKindView, TokenView,
};
use super::literal::{
    all_digits, digits_value, is_digit, lemma_parse_number, spec_digit_value, spec_flip_sign,
    spec_parse_number, NumberError,
};
use super::reader::{
    column, lemma_line_unbroken, lemma_position_step, lemma_run_end, lemma_run_end_bounds,
    lemma_run_end_extended, line_count, run_end,
};
use super::text::spaces;

verus! {

/// The one token that a literal makes: a number at the start of the text.
pub open spec fn number_token(word: u16) -> Seq<TokenView> {
    seq![TokenView { kind: TokenKindView::Number(word), offset: 0 }]
}

/// The digits of every base up to 16 are letters and numbers.
proof fn lemma_digits_are_alphanumeric(c: char, radix: u16)
    requires
        radix <= 36,
        spec_digit_value(c, radix) is Some,
    ensures
        spec_is_alphanumeric(c),
        c != '-',
        c != '\n',
{
}

/// A text that starts with `intro` and goes on with digits of base `radix`
/// only holds one run of letters and numbers behind `intro`, which is the
/// digits.
proof fn lemma_digit_run(src: Seq<char>, intro: int, digits: Seq<char>, radix: u16)
    requires
        radix <= 36,
        0 <= intro,
        src.len() == intro + digits.len(),
        src.subrange(intro, src.len() as int) == digits,
        all_digits(digits, radix),
    ensures
        run_end(src, intro, alphanumeric()) == src.len(),
{
    assert forall|i: int| intro <= i < src.len() implies alphanumeric()(#[trigger] src[i]) by {
        assert(src[i] == digits[i - intro]);
        lemma_digits_are_alphanumeric(digits[i - intro], radix);
    }
    lemma_run_end(src, intro, alphanumeric(), src.len() as int);
}

/// A hexadecimal literal stands for the number that its digits write: a text
/// made of `x` and hexadecimal digits that write a number within 16 bits is
/// one token, a number with that value.
pub proof fn lemma_lex_hex_literal(digits: Seq<char>)
    requires
        digits.len() > 0,
        all_digits(digits, 16),
        digits_value(digits, 16) <= 0xFFFF,
    ensures
        spec_lex(seq!['x'] + digits) == Ok::<Seq<TokenView>, LexErrorView>(
            number_token(digits_value(digits, 16) as u16),
        ),
{
    let src = seq!['x'] + digits;
    let end = src.len() as int;
    assert(src.subrange(1, end) =~= digits);
    lemma_digit_run(src, 1, digits, 16);
    lemma_parse_number(digits, 16);
    let token = TokenView {
        kind: TokenKindView::Number(digits_value(digits, 16) as u16),
        offset: 0,
    };
    assert(scan(src, 0) == Scan::Emit { token, next: end });
    assert(lex_from(src, end) == Ok::<Seq<TokenView>, LexErrorView>(Seq::empty()));
    assert(seq![token] + Seq::<TokenView>::empty() =~= seq![token]);
}

/// The character that writes `value`, which is below 16, as a hexadecimal
/// digit.
pub open spec fn hex_digit(value: nat) -> char {
    if value < 10 {
        (('0' as u8) + value) as char
    } else {
        (('A' as u8) + (value - 10)) as char
    }
}

/// `word` written with four hexadecimal digits.
pub open spec fn hex_text(word: u16) -> Seq<char> {
    seq![
        hex_digit((word / 4096) as nat),
        hex_digit((word / 256 % 16) as nat),
        hex_digit((word / 16 % 16) as nat),
        hex_digit((word % 16) as nat),
    ]
}

/// A hexadecimal digit has the value that it was written for.
proof fn lemma_hex_digit(value: nat)
    requires
        value < 16,
    ensures
        spec_digit_value(hex_digit(value), 16) == Some(value as u16),
{
    let c = hex_digit(value);
    if value < 10 {
        assert(c as int == 48 + value);
    } else {
        assert(c as int == 65 + (value - 10));
    }
}

/// Every word comes back from its hexadecimal literal: `x` and the four
/// hexadecimal digits of a word lex to that word.
pub proof fn lemma_lex_hex_round_trip(word: u16)
    ensures
        spec_lex(seq!['x'] + hex_text(word)) == Ok::<Seq<TokenView>, LexErrorView>(
            number_token(word),
        ),
{
    let text = hex_text(word);
    let three = text.drop_last();
    let two = three.drop_last();
    let one = two.drop_last();
    lemma_hex_digit((word / 4096) as nat);
    lemma_hex_digit((word / 256 % 16) as nat);
    lemma_hex_digit((word / 16 % 16) as nat);
    lemma_hex_digit((word % 16) as nat);
    assert(one.drop_last().len() == 0);
    assert(one.last() == hex_digit((word / 4096) as nat));
    assert(digits_value(one.drop_last(), 16) == 0);
    assert(digits_value(one, 16) == word / 4096);
    assert(digits_value(two, 16) == word / 256) by {
        assert(two.last() == hex_digit((word / 256 % 16) as nat));
    }
    assert(digits_value(three, 16) == word / 16) by {
        assert(three.last() == hex_digit((word / 16 % 16) as nat));
    }
    assert(digits_value(text, 16) == word) by {
        assert(text.last() == hex_digit((word % 16) as nat));
    }
    lemma_lex_hex_literal(text);
}

/// A decimal literal stands for the number that its digits write, or, with a
/// minus sign, for the two's complement of that number: a text made of `#`,
/// an optional `-` and decimal digits that write a number within 16 bits is
/// one token, a number with that value.
pub proof fn lemma_lex_decimal_literal(digits: Seq<char>, negative: bool)
    requires
        digits.len() > 0,
        all_digits(digits, 10),
        digits_value(digits, 10) <= 0xFFFF,
    ensures
        spec_lex(
            seq!['#'] + (if negative {
                seq!['-']
            } else {
                Seq::empty()
            }) + digits,
        ) == Ok::<Seq<TokenView>, LexErrorView>(
            number_token(
                if negative {
                    spec_flip_sign(digits_value(digits, 10) as u16)
                } else {
                    digits_value(digits, 10) as u16
                },
            ),
        ),
{
    let sign = if negative {
        seq!['-']
    } else {
        Seq::<char>::empty()
    };
    let src = seq!['#'] + sign + digits;
    let end = src.len() as int;
    let start = 1 + sign.len() as int;
    assert(src.subrange(start, end) =~= digits);
    lemma_digit_run(src, start, digits, 10);
    lemma_parse_number(digits, 10);
    if !negative {
        assert(src[1] == digits[0]);
        lemma_digits_are_alphanumeric(digits[0], 10);
    }
    let word = digits_value(digits, 10) as u16;
    let token = TokenView {
        kind: TokenKindView::Number(
            if negative {
                spec_flip_sign(word)
            } else {
                word
            },
        ),
        offset: 0,
    };
    assert(scan_decimal(src, 0, 1) == Scan::Emit { token, next: end });
    assert(scan(src, 0) == Scan::Emit { token, next: end });
    assert(lex_from(src, end) == Ok::<Seq<TokenView>, LexErrorView>(Seq::empty()));
    assert(seq![token] + Seq::<TokenView>::empty() =~= seq![token]);
}

/// A negative decimal literal is the two's complement of its digits: `#-`
/// with the digits of a number `n` from 1 to 65535 lexes as `#` with the
/// digits of `65536 - n` does.
pub proof fn lemma_lex_negative_decimal(digits: Seq<char>, complement: Seq<char>)
    requires
        digits.len() > 0,
        complement.len() > 0,
        all_digits(digits, 10),
        all_digits(complement, 10),
        1 <= digits_value(digits, 10) <= 0xFFFF,
        digits_value(complement, 10) == 0x10000 - digits_value(digits, 10),
    ensures
        spec_lex(seq!['#'] + seq!['-'] + digits) == spec_lex(seq!['#'] + complement),
{
    lemma_lex_decimal_literal(digits, true);
    lemma_lex_decimal_literal(complement, false);
    assert(seq!['#'] + Seq::<char>::empty() + complement =~= seq!['#'] + complement);
}


/// What a run of letters and numbers that starts with digits and goes on
/// with a character that is no digit is read as: the digits stay within 16
/// bits, so the error is that character.
proof fn lemma_invalid_digit(src: Seq<char>, good: Seq<char>, bad: char, radix: u16)
    requires
        1 <= radix <= 36,
        src.len() <= usize::MAX,
        src.len() >= 2 + good.len(),
        src.subrange(1, 1 + good.len() as int) == good,
        src[1 + good.len() as int] == bad,
        src[0] != '\n',
        all_digits(good, radix),
        digits_value(good, radix) <= 0xFFFF,
        spec_is_alphanumeric(bad),
        spec_digit_value(bad, radix) is None,
    ensures
        ({
            let end = run_end(src, 1, alphanumeric());
            &&& good.len() + 2 <= end <= src.len()
            &&& spec_parse_number(src.subrange(1, end), radix) == Err::<u16, NumberError>(
                NumberError::InvalidDigit { index: good.len() as usize },
            )
            &&& line_count(src.take(end)) == 0
            &&& column(src.take(1)) == 1
        }),
{
    let end = run_end(src, 1, alphanumeric());
    lemma_run_end_bounds(src, 1, alphanumeric());
    assert forall|i: int| 1 <= i < 2 + good.len() implies alphanumeric()(#[trigger] src[i]) by {
        if i < 1 + good.len() {
            assert(src[i] == src.subrange(1, 1 + good.len() as int)[i - 1]);
            lemma_digits_are_alphanumeric(good[i - 1], radix);
        }
    }
    if end < good.len() + 2 {
        assert(alphanumeric()(src[end]));
    }
    let text = src.subrange(1, end);
    assert forall|i: int| 0 <= i < good.len() implies is_digit(radix)(#[trigger] text[i]) by {
        assert(text[i] == src.subrange(1, 1 + good.len() as int)[i]);
    }
    lemma_run_end(text, 0, is_digit(radix), good.len() as int);
    assert(text.take(good.len() as int) =~= good);
    assert forall|i: int| 0 <= i < end implies src[i] != '\n' by {
        if i >= 1 {
            assert(alphanumeric()(src[i]));
        }
    }
    assert(src.take(0).len() == 0);
    lemma_line_unbroken(src, 0, end);
    lemma_line_unbroken(src, 0, 1);
}

/// A hexadecimal literal with a character that is no hexadecimal digit is an
/// error that points at the first such character: behind `x` and the digits
/// `good`, the letter or number `bad` stands in line 0 at place
/// `good.len() + 1`, whatever follows it.
pub proof fn lemma_lex_invalid_hex_digit(good: Seq<char>, bad: char, rest: Seq<char>)
    requires
        good.len() + rest.len() + 2 <= usize::MAX,
        all_digits(good, 16),
        digits_value(good, 16) <= 0xFFFF,
        spec_is_alphanumeric(bad),
        spec_digit_value(bad, 16) is None,
    ensures
        spec_lex(seq!['x'] + good + seq![bad] + rest) matches Err(error) && error.line == 0
            && error.character == good.len() + 1,
{
    let src = seq!['x'] + good + seq![bad] + rest;
    assert(src.subrange(1, 1 + good.len() as int) =~= good);
    lemma_invalid_digit(src, good, bad, 16);
    let end = run_end(src, 1, alphanumeric());
    let error = literal_error(
        src,
        1,
        end,
        "invalid hex literal 'x"@,
        NumberError::InvalidDigit { index: good.len() as usize },
    );
    assert(scan(src, 0) == Scan::Fail { error });
}

/// A decimal literal with a character that is no decimal digit is an error
/// that points at the first such character: behind `#` and the digits
/// `good`, the letter or number `bad` stands in line 0 at place
/// `good.len() + 1`, whatever follows it.
pub proof fn lemma_lex_invalid_decimal_digit(good: Seq<char>, bad: char, rest: Seq<char>)
    requires
        good.len() + rest.len() + 2 <= usize::MAX,
        all_digits(good, 10),
        digits_value(good, 10) <= 0xFFFF,
        spec_is_alphanumeric(bad),
        spec_digit_value(bad, 10) is None,
    ensures
        spec_lex(seq!['#'] + good + seq![bad] + rest) matches Err(error) && error.line == 0
            && error.character == good.len() + 1,
{
    let src = seq!['#'] + good + seq![bad] + rest;
    assert(src.subrange(1, 1 + good.len() as int) =~= good);
    lemma_invalid_digit(src, good, bad, 10);
    if good.len() > 0 {
        assert(src[1] == good[0]);
        lemma_digits_are_alphanumeric(good[0], 10);
    }
    let end = run_end(src, 1, alphanumeric());
    let error = literal_error(
        src,
        1,
        end,
        "invalid decimal literal '"@,
        NumberError::InvalidDigit { index: good.len() as usize },
    );
    assert(scan_decimal(src, 0, 1) == Scan::Fail { error });
    assert(scan(src, 0) == Scan::Fail { error });
}

/// Whether the lexer, started at `pos`, comes to the end of the text inside
/// a string literal: one that no quote closes.
pub open spec fn ends_in_string(src: Seq<char>, pos: int) -> bool
    decreases src.len() - pos,
{
    if 0 <= pos < src.len() {
        proof {
            lemma_scan_advances(src, pos);
        }
        match scan(src, pos) {
            Scan::Skip { next } => ends_in_string(src, next),
            Scan::Emit { next, .. } => (src[pos] == '"' && run_end(src, pos + 1, not_quote())
                >= src.len()) || ends_in_string(src, next),
            Scan::Fail { .. } => false,
        }
    } else {
        false
    }
}

/// What stands at `pos` in `head` stands there in a longer text `ext` too,
/// if it ends inside `head`, or at its end where `ext` goes on with a
/// character that ends it.
proof fn lemma_scan_extended(head: Seq<char>, ext: Seq<char>, pos: int)
    requires
        head.len() < ext.len(),
        ext.take(head.len() as int) == head,
        0 <= pos < head.len(),
        !spec_is_alphanumeric(ext[head.len() as int]),
        ext[head.len() as int] != '_',
        ext[head.len() as int] != '-',
        spec_is_blank(head[pos]) ==> run_end(head, pos, blank()) < head.len() || !spec_is_blank(
            ext[head.len() as int],
        ),
        head[pos] == ';' ==> run_end(head, pos, not_newline()) < head.len(),
        head[pos] == '"' ==> run_end(head, pos + 1, not_quote()) < head.len(),
    ensures
        scan(ext, pos) == scan(head, pos),
{
    let len = head.len() as int;
    assert(ext[pos] == ext.take(len)[pos]);
    assert forall|a: int, b: int| 0 <= a <= b <= len implies #[trigger] ext.subrange(a, b)
        == head.subrange(a, b) by {
        assert forall|i: int| a <= i < b implies ext[i] == head[i] by {
            assert(ext[i] == ext.take(len)[i]);
        }
        assert(ext.subrange(a, b) =~= head.subrange(a, b));
    }
    assert forall|b: int| 0 <= b <= len implies #[trigger] ext.take(b) == head.take(b) by {
        assert(ext.take(b) == ext.subrange(0, b));
        assert(head.take(b) == head.subrange(0, b));
    }
    lemma_run_end_bounds(head, pos, not_newline());
    lemma_run_end_bounds(head, pos + 1, not_quote());
    lemma_run_end_bounds(head, pos, blank());
    lemma_run_end_bounds(head, pos, symbol_char());
    lemma_run_end_bounds(head, pos, alphanumeric());
    lemma_run_end_bounds(head, pos + 1, alphanumeric());
    lemma_run_end_extended(head, ext, pos, symbol_char());
    lemma_run_end_extended(head, ext, pos, alphanumeric());
    lemma_run_end_extended(head, ext, pos + 1, alphanumeric());
    if pos + 2 <= len {
        lemma_run_end_bounds(head, pos + 2, alphanumeric());
        lemma_run_end_extended(head, ext, pos + 2, alphanumeric());
    }
    if pos + 1 < len {
        assert(ext[pos + 1] == ext.take(len)[pos + 1]);
    }
    if spec_is_blank(head[pos]) {
        lemma_run_end_extended(head, ext, pos, blank());
    }
    if run_end(head, pos, not_newline()) < len {
        lemma_run_end_extended(head, ext, pos, not_newline());
    }
    if run_end(head, pos + 1, not_quote()) < len {
        lemma_run_end_extended(head, ext, pos + 1, not_quote());
    }
}

/// A comment behind `src` changes nothing of what the lexer finds from `pos`
/// on. `ext` is `src` with the comment.
proof fn lemma_comment_from(src: Seq<char>, ext: Seq<char>, pos: int)
    requires
        src.len() < ext.len(),
        ext.take(src.len() as int) == src,
        ext[src.len() as int] == ';',
        forall|i: int| src.len() <= i < ext.len() ==> ext[i] != '\n',
        0 <= pos <= src.len(),
        !ends_in_string(src, pos),
    ensures
        lex_from(ext, pos) == lex_from(src, pos),
    decreases src.len() - pos,
{
    let len = src.len() as int;
    assert(lex_from(ext, ext.len() as int) == Ok::<Seq<TokenView>, LexErrorView>(Seq::empty()));
    if pos == len {
        lemma_run_end(ext, pos, not_newline(), ext.len() as int);
        assert(scan(ext, pos) == Scan::Skip { next: ext.len() as int });
    } else {
        lemma_scan_advances(src, pos);
        lemma_run_end_bounds(src, pos, not_newline());
        if src[pos] == ';' && run_end(src, pos, not_newline()) == len {
            assert forall|i: int| pos <= i < ext.len() implies not_newline()(
                #[trigger] ext[i],
            ) by {
                if i < len {
                    assert(ext[i] == ext.take(len)[i]);
                    assert(not_newline()(src[i]));
                }
            }
            lemma_run_end(ext, pos, not_newline(), ext.len() as int);
            assert(ext[pos] == ext.take(len)[pos]);
            assert(scan(ext, pos) == Scan::Skip { next: ext.len() as int });
            assert(scan(src, pos) == Scan::Skip { next: len });
            assert(lex_from(src, len) == Ok::<Seq<TokenView>, LexErrorView>(Seq::empty()));
        } else {
            lemma_scan_extended(src, ext, pos);
            match scan(src, pos) {
                Scan::Skip { next } => {
                    lemma_comment_from(src, ext, next);
                },
                Scan::Emit { next, .. } => {
                    lemma_comment_from(src, ext, next);
                },
                Scan::Fail { .. } => {},
            }
        }
    }
}

/// A comment at the end of a text is transparent: the text lexes the same
/// with it and without it. The text must not end inside a string literal,
/// since a string literal that is left open takes the comment in.
pub proof fn lemma_comment_is_transparent(src: Seq<char>, comment: Seq<char>)
    requires
        forall|i: int| 0 <= i < comment.len() ==> comment[i] != '\n',
        !ends_in_string(src, 0),
    ensures
        spec_lex(src + seq![';'] + comment) == spec_lex(src),
{
    let ext = src + seq![';'] + comment;
    assert(ext.take(src.len() as int) =~= src);
    assert forall|i: int| src.len() <= i < ext.len() implies ext[i] != '\n' by {
        if i > src.len() {
            assert(ext[i] == comment[i - src.len() - 1]);
        }
    }
    lemma_comment_from(src, ext, 0);
}

/// A line feed at which the lexer arrives is a token of its own, and the
/// lexer goes on behind it.
pub proof fn lemma_lex_newline(src: Seq<char>, pos: int)
    requires
        0 <= pos < src.len(),
        src[pos] == '\n',
    ensures
        lex_from(src, pos) == (match lex_from(src, pos + 1) {
            Ok(rest) => Ok::<Seq<TokenView>, LexErrorView>(
                seq![TokenView { kind: TokenKindView::Newline, offset: pos as nat }] + rest,
            ),
            Err(error) => Err(error),
        }),
{
}

/// The tokens that the lexer finds from `pos` on stand at places of the text
/// from `pos` on, each behind the one before it, and a line end token
/// stands where the text has a line feed.
pub proof fn lemma_token_offsets(src: Seq<char>, pos: int)
    requires
        0 <= pos,
    ensures
        lex_from(src, pos) matches Ok(tokens) ==> {
            &&& forall|i: int|
                0 <= i < tokens.len() ==> pos <= (#[trigger] tokens[i]).offset < src.len()
            &&& forall|i: int, j: int|
                0 <= i < j < tokens.len() ==> (#[trigger] tokens[i]).offset < (
                #[trigger] tokens[j]).offset
            &&& forall|i: int|
                0 <= i < tokens.len() && (#[trigger] tokens[i]).kind is Newline
                    ==> src[tokens[i].offset as int] == '\n'
        },
    decreases src.len() - pos,
{
    if pos < src.len() {
        lemma_scan_advances(src, pos);
        match scan(src, pos) {
            Scan::Skip { next } => {
                lemma_token_offsets(src, next);
            },
            Scan::Emit { token, next } => {
                lemma_token_offsets(src, next);
                assert(token.offset == pos);
                assert(token.kind is Newline ==> src[pos] == '\n');
                match lex_from(src, next) {
                    Ok(rest) => {
                        let tokens = seq![token] + rest;
                        assert forall|i: int| 0 <= i < tokens.len() implies pos <= (
                        #[trigger] tokens[i]).offset < src.len() && (tokens[i].kind is Newline
                            ==> src[tokens[i].offset as int] == '\n') by {
                            if i > 0 {
                                assert(tokens[i] == rest[i - 1]);
                            }
                        }
                        assert forall|i: int, j: int| 0 <= i < j < tokens.len() implies (
                        #[trigger] tokens[i]).offset < (#[trigger] tokens[j]).offset by {
                            assert(tokens[j] == rest[j - 1]);
                            if i > 0 {
                                assert(tokens[i] == rest[i - 1]);
                            }
                        }
                    },
                    Err(_) => {},
                }
            },
            Scan::Fail { .. } => {},
        }
    }
}

/// The tokens of a text stand in the order of the text: each has its place
/// inside the text, behind the place of the token before it. A line end
/// token stands where the text has a line feed.
pub proof fn lemma_tokens_in_order(src: Seq<char>)
    ensures
        spec_lex(src) matches Ok(tokens) ==> {
            &&& forall|i: int| 0 <= i < tokens.len() ==> (#[trigger] tokens[i]).offset < src.len()
            &&& forall|i: int, j: int|
                0 <= i < j < tokens.len() ==> (#[trigger] tokens[i]).offset < (
                #[trigger] tokens[j]).offset
            &&& forall|i: int|
                0 <= i < tokens.len() && (#[trigger] tokens[i]).kind is Newline
                    ==> src[tokens[i].offset as int] == '\n'
        },
{
    lemma_token_offsets(src, 0);
}


/// A comment gives no token: from a `;` the lexer goes on at the next line
/// feed, or at the end of the text where there is none. The line feed stays
/// unread, and the line stays the same.
pub proof fn lemma_lex_comment(src: Seq<char>, pos: int)
    requires
        0 <= pos < src.len(),
        src[pos] == ';',
    ensures
        ({
            let next = run_end(src, pos, not_newline());
            &&& pos < next <= src.len()
            &&& forall|i: int| pos <= i < next ==> src[i] != '\n'
            &&& next == src.len() || src[next] == '\n'
            &&& scan(src, pos) == Scan::Skip { next }
            &&& lex_from(src, pos) == lex_from(src, next)
            &&& line_count(src.take(next)) == line_count(src.take(pos))
        }),
{
    let next = run_end(src, pos, not_newline());
    lemma_run_end_bounds(src, pos, not_newline());
    assert forall|i: int| pos <= i < next implies src[i] != '\n' by {
        assert(not_newline()(src[i]));
    }
    lemma_line_unbroken(src, pos, next);
}

/// Whether `token` accounts for the line feed at place `p` of the text: it
/// is the line end at that place, or a string literal that holds the place.
pub open spec fn accounts_for(token: TokenView, p: int) -> bool {
    ||| token.kind is Newline && token.offset == p
    ||| token.kind matches TokenKindView::Str(content) && token.offset < p <= token.offset
        + content.len()
}

/// Whether one of `tokens` accounts for the line feed at place `p`.
pub open spec fn accounted(tokens: Seq<TokenView>, p: int) -> bool {
    exists|i: int| 0 <= i < tokens.len() && accounts_for(#[trigger] tokens[i], p)
}

/// No line feed is lost from `pos` on: each is a line end token, or stands
/// inside a string literal.
pub proof fn lemma_line_feeds_from(src: Seq<char>, pos: int)
    requires
        0 <= pos,
    ensures
        lex_from(src, pos) matches Ok(tokens) ==> forall|p: int|
            pos <= p < src.len() && src[p] == '\n' ==> #[trigger] accounted(tokens, p),
    decreases src.len() - pos,
{
    if pos < src.len() {
        lemma_scan_advances(src, pos);
        lemma_run_end_bounds(src, pos, blank());
        lemma_run_end_bounds(src, pos, not_newline());
        lemma_run_end_bounds(src, pos, symbol_char());
        lemma_run_end_bounds(src, pos, alphanumeric());
        lemma_run_end_bounds(src, pos + 1, alphanumeric());
        lemma_run_end_bounds(src, pos + 1, not_quote());
        if pos + 2 <= src.len() {
            lemma_run_end_bounds(src, pos + 2, alphanumeric());
        }
        match scan(src, pos) {
            Scan::Skip { next } => {
                lemma_line_feeds_from(src, next);
                match lex_from(src, next) {
                    Ok(tokens) => {
                        assert forall|p: int|
                            pos <= p < src.len() && src[p] == '\n' implies #[trigger] accounted(
                            tokens,
                            p,
                        ) by {
                            if p < next {
                                assert(blank()(src[p]) || not_newline()(src[p]));
                            }
                        }
                    },
                    Err(_) => {},
                }
            },
            Scan::Emit { token, next } => {
                lemma_line_feeds_from(src, next);
                match lex_from(src, next) {
                    Ok(rest) => {
                        let tokens = seq![token] + rest;
                        assert(tokens[0] == token);
                        assert forall|p: int|
                            pos <= p < src.len() && src[p] == '\n' implies #[trigger] accounted(
                            tokens,
                            p,
                        ) by {
                            if p < next {
                                if p > pos {
                                    assert(alphanumeric()(src[p]) || symbol_char()(src[p])
                                        || not_quote()(src[p]) || src[p] == '-');
                                }
                                assert(accounts_for(tokens[0], p));
                            } else {
                                assert(accounted(rest, p));
                                let i = choose|i: int|
                                    0 <= i < rest.len() && accounts_for(#[trigger] rest[i], p);
                                assert(tokens[i + 1] == rest[i]);
                                assert(accounts_for(tokens[i + 1], p));
                            }
                        }
                    },
                    Err(_) => {},
                }
            },
            Scan::Fail { .. } => {},
        }
    }
}

/// Line feeds are preserved: every line feed of a text that lexes is a line
/// end token at its place, unless it stands inside a string literal.
pub proof fn lemma_line_feeds_are_tokens(src: Seq<char>)
    ensures
        spec_lex(src) matches Ok(tokens) ==> forall|p: int|
            0 <= p < src.len() && src[p] == '\n' ==> #[trigger] accounted(tokens, p),
{
    lemma_line_feeds_from(src, 0);
}


/// Two texts of one length that differ only before `from` have their runs
/// from there on end at the same place.
proof fn lemma_run_end_same<T>(a: Seq<T>, b: Seq<T>, from: int, pred: spec_fn(T) -> bool)
    requires
        a.len() == b.len(),
        0 <= from <= a.len(),
        forall|i: int| from <= i < a.len() ==> a[i] == b[i],
    ensures
        run_end(a, from, pred) == run_end(b, from, pred),
{
    lemma_run_end_bounds(a, from, pred);
    let end = run_end(a, from, pred);
    assert forall|i: int| from <= i < end implies pred(#[trigger] b[i]) by {
        assert(pred(a[i]));
    }
    lemma_run_end(b, from, pred, end);
}

/// Two texts that have as many line feeds before `from`, a line feed at
/// `from` and the same characters behind it give every later place the same
/// line and the same column.
proof fn lemma_places_agree(a: Seq<char>, b: Seq<char>, from: int, place: int)
    requires
        a.len() == b.len(),
        0 <= from < place <= a.len(),
        forall|i: int| from <= i < a.len() ==> a[i] == b[i],
        a[from] == '\n',
        line_count(a.take(from)) == line_count(b.take(from)),
    ensures
        line_count(a.take(place)) == line_count(b.take(place)),
        column(a.take(place)) == column(b.take(place)),
    decreases place - from,
{
    lemma_position_step(a, place - 1);
    lemma_position_step(b, place - 1);
    if place - 1 > from {
        lemma_places_agree(a, b, from, place - 1);
    }
}

/// Two texts that have as many line feeds before `from`, the same
/// characters from there on, and a line feed at `from` unless they end
/// there, lex alike from any place from `from` on.
proof fn lemma_lex_same_rest(a: Seq<char>, b: Seq<char>, from: int, pos: int)
    requires
        a.len() == b.len(),
        0 <= from <= pos,
        from <= a.len(),
        forall|i: int| from <= i < a.len() ==> a[i] == b[i],
        from == a.len() || a[from] == '\n',
        line_count(a.take(from)) == line_count(b.take(from)),
    ensures
        lex_from(a, pos) == lex_from(b, pos),
    decreases a.len() - pos,
{
    let len = a.len() as int;
    if pos < len {
        lemma_scan_advances(a, pos);
        lemma_scan_advances(b, pos);
        if pos > from {
            assert forall|x: int, y: int| pos <= x <= y <= len implies #[trigger] a.subrange(x, y)
                == b.subrange(x, y) by {
                assert(a.subrange(x, y) =~= b.subrange(x, y));
            }
            assert forall|e: int| pos <= e <= len implies line_count(#[trigger] a.take(e))
                == line_count(b.take(e)) && column(a.take(e)) == column(b.take(e)) by {
                lemma_places_agree(a, b, from, e);
            }
            assert forall|e: int| pos <= e <= len implies line_count(a.take(e)) == line_count(
                #[trigger] b.take(e),
            ) && column(a.take(e)) == column(b.take(e)) by {
                lemma_places_agree(a, b, from, e);
            }
            lemma_run_end_same(a, b, pos, blank());
            lemma_run_end_same(a, b, pos, not_newline());
            lemma_run_end_same(a, b, pos, symbol_char());
            lemma_run_end_same(a, b, pos, alphanumeric());
            lemma_run_end_same(a, b, pos + 1, alphanumeric());
            lemma_run_end_same(a, b, pos + 1, not_quote());
            lemma_run_end_bounds(a, pos, symbol_char());
            lemma_run_end_bounds(a, pos, alphanumeric());
            lemma_run_end_bounds(a, pos + 1, alphanumeric());
            lemma_run_end_bounds(a, pos + 1, not_quote());
            if pos + 2 <= len {
                lemma_run_end_same(a, b, pos + 2, alphanumeric());
                lemma_run_end_bounds(a, pos + 2, alphanumeric());
            }
        }
        assert(scan(a, pos) == scan(b, pos));
        match scan(a, pos) {
            Scan::Skip { next } => {
                lemma_lex_same_rest(a, b, from, next);
            },
            Scan::Emit { next, .. } => {
                lemma_lex_same_rest(a, b, from, next);
            },
            Scan::Fail { .. } => {},
        }
    }
}

/// A comment and the blanks that take its place change nothing of what the
/// lexer finds from `pos` on. `a` holds the comment from the end of `head`
/// up to `rest`, `b` holds blanks there; behind that the two are alike.
proof fn lemma_comment_as_blanks_from(
    head: Seq<char>,
    a: Seq<char>,
    b: Seq<char>,
    rest: int,
    pos: int,
)
    requires
        a.len() == b.len(),
        head.len() < rest <= a.len(),
        a.take(head.len() as int) == head,
        b.take(head.len() as int) == head,
        a[head.len() as int] == ';',
        forall|i: int| head.len() <= i < rest ==> a[i] != '\n' && b[i] == ' ',
        forall|i: int| rest <= i < a.len() ==> a[i] == b[i],
        rest == a.len() || a[rest] == '\n',
        0 <= pos <= head.len(),
        !ends_in_string(head, pos),
    ensures
        lex_from(a, pos) == lex_from(b, pos),
    decreases head.len() - pos,
{
    let len = head.len() as int;
    lemma_line_unbroken(a, len, rest);
    lemma_line_unbroken(b, len, rest);
    lemma_lex_same_rest(a, b, rest, rest);
    assert forall|i: int| len <= i < rest implies not_newline()(#[trigger] a[i]) by {}
    assert forall|i: int| len <= i < rest implies blank()(#[trigger] b[i]) by {}
    lemma_run_end(a, len, not_newline(), rest);
    lemma_run_end(b, len, blank(), rest);
    assert(scan(a, len) == Scan::Skip { next: rest });
    assert(scan(b, len) == Scan::Skip { next: rest });
    if pos < len {
        let c = head[pos];
        assert(a[pos] == a.take(len)[pos]);
        assert(b[pos] == b.take(len)[pos]);
        lemma_scan_advances(head, pos);
        lemma_run_end_bounds(head, pos, not_newline());
        lemma_run_end_bounds(head, pos, blank());
        if c == ';' && run_end(head, pos, not_newline()) == len {
            assert forall|i: int| pos <= i < rest implies not_newline()(#[trigger] a[i]) by {
                if i < len {
                    assert(a[i] == a.take(len)[i]);
                    assert(not_newline()(head[i]));
                }
            }
            assert forall|i: int| pos <= i < rest implies not_newline()(#[trigger] b[i]) by {
                if i < len {
                    assert(b[i] == b.take(len)[i]);
                    assert(not_newline()(head[i]));
                }
            }
            lemma_run_end(a, pos, not_newline(), rest);
            lemma_run_end(b, pos, not_newline(), rest);
            assert(scan(a, pos) == Scan::Skip { next: rest });
            assert(scan(b, pos) == Scan::Skip { next: rest });
        } else if spec_is_blank(c) && run_end(head, pos, blank()) == len {
            lemma_run_end_extended(head, a, pos, blank());
            assert forall|i: int| pos <= i < rest implies blank()(#[trigger] b[i]) by {
                if i < len {
                    assert(b[i] == b.take(len)[i]);
                    assert(blank()(head[i]));
                }
            }
            lemma_run_end(b, pos, blank(), rest);
            assert(scan(a, pos) == Scan::Skip { next: len });
            assert(scan(b, pos) == Scan::Skip { next: rest });
            assert(lex_from(a, pos) == lex_from(a, len));
            assert(lex_from(b, pos) == lex_from(b, rest));
        } else {
            lemma_scan_extended(head, a, pos);
            lemma_scan_extended(head, b, pos);
            match scan(head, pos) {
                Scan::Skip { next } => {
                    lemma_comment_as_blanks_from(head, a, b, rest, next);
                },
                Scan::Emit { next, .. } => {
                    lemma_comment_as_blanks_from(head, a, b, rest, next);
                },
                Scan::Fail { .. } => {},
            }
        }
    }
}

/// A comment is transparent wherever it stands: a text lexes the same with
/// a comment as with as many blanks in its place. The comment runs up to the
/// line feed that `tail` starts with, or to the end of the text; the text
/// before it must not end inside a string literal, which would take the
/// comment in.
pub proof fn lemma_comment_is_white_space(head: Seq<char>, comment: Seq<char>, tail: Seq<char>)
    requires
        forall|i: int| 0 <= i < comment.len() ==> comment[i] != '\n',
        tail.len() == 0 || tail[0] == '\n',
        !ends_in_string(head, 0),
    ensures
        spec_lex(head + seq![';'] + comment + tail) == spec_lex(
            head + spaces(comment.len() + 1) + tail,
        ),
{
    let a = head + seq![';'] + comment + tail;
    let b = head + spaces(comment.len() + 1) + tail;
    let len = head.len() as int;
    let rest = len + comment.len() + 1;
    assert(a.take(len) =~= head);
    assert(b.take(len) =~= head);
    assert forall|i: int| len <= i < rest implies a[i] != '\n' && b[i] == ' ' by {
        if i > len {
            assert(a[i] == comment[i - len - 1]);
        }
    }
    assert forall|i: int| rest <= i < a.len() implies a[i] == b[i] by {
        assert(a[i] == tail[i - rest]);
        assert(b[i] == tail[i - rest]);
    }
    if rest < a.len() {
        assert(a[rest] == tail[0]);
    }
    lemma_comment_as_blanks_from(head, a, b, rest, 0);
}

} // verus!
