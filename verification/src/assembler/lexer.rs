//! The lexer: from the characters of the source text to tokens.
use vstd::prelude::*;

use super::chars::{
    chars_of, is_alphabetic_char, is_alphanumeric_char, is_blank_char, is_not_newline,
    is_not_quote, is_numeric_char, is_symbol_char, spec_is_alphabetic, spec_is_alphanumeric,
    spec_is_blank, spec_is_numeric, spec_is_symbol_char, string_from_chars,
};
use super::literal::{
    flip_sign_twos_complement, parse_number, spec_flip_sign, spec_parse_number, NumberError,
};
use super::reader::{
    column, lemma_position_step, lemma_run_end, lemma_run_end_bounds, line_count, run_end, Item,
    Reader,
};
use super::text::{
    decimal, line_text, nth_line, push_chars, push_decimal, push_spaces, push_text,
    push_without_tabs, spaces, without_tabs,
};

verus! {

/// Why a source text is no sequence of tokens, and where.
#[derive(Debug, PartialEq)]
pub struct LexError {
    pub message: String,
    /// The number of line feeds before the place of the error.
    pub line: usize,
    /// The number of characters between the start of that line and the
    /// character at fault.
    pub character: usize,
}

/// A [`LexError`] as plain values.
pub struct LexErrorView {
    pub message: Seq<char>,
    pub line: nat,
    pub character: nat,
}

impl View for LexError {
    type V = LexErrorView;

    open spec fn view(&self) -> LexErrorView {
        LexErrorView {
            message: self.message@,
            line: self.line as nat,
            character: self.character as nat,
        }
    }
}

/// A [`LexError`] as text, for a reader: the place, the message, the line of
/// the source text at fault with a space for each tab, and under it a caret
/// below the character at fault, with the message again.
pub open spec fn spec_pretty(error: LexErrorView, filename: Seq<char>, source: Seq<char>) -> Seq<
    char,
> {
    let indicator = decimal(error.line) + " | "@;
    filename + ":"@ + decimal(error.line) + ":"@ + decimal(error.character) + "\n\nlex error: "@
        + error.message + "\n"@ + indicator + without_tabs(nth_line(source, error.line)) + "\n"@
        + spaces(indicator.len() + error.character) + "^ "@ + error.message
}

impl LexError {
    /// The error as text, for a reader, with the line of `source` that it
    /// speaks of.
    pub fn pretty(self, filename: &str, source: &str) -> (text: String)
        ensures
            text@ == spec_pretty(self@, filename@, source@),
    {
        let line = line_text(&chars_of(source), self.line);
        let mut indicator: Vec<char> = Vec::new();
        push_decimal(&mut indicator, self.line);
        push_text(&mut indicator, " | ");
        let mut out: Vec<char> = Vec::new();
        push_text(&mut out, filename);
        push_text(&mut out, ":");
        push_decimal(&mut out, self.line);
        push_text(&mut out, ":");
        push_decimal(&mut out, self.character);
        push_text(&mut out, "\n\nlex error: ");
        push_text(&mut out, self.message.as_str());
        push_text(&mut out, "\n");
        push_chars(&mut out, &indicator);
        push_without_tabs(&mut out, &line);
        push_text(&mut out, "\n");
        let ghost before = out@;
        push_spaces(&mut out, indicator.len());
        push_spaces(&mut out, self.character);
        proof {
            assert(indicator@ =~= decimal(self.line as nat) + " | "@);
            assert(out@ =~= before + spaces((indicator.len() + self.character) as nat));
        }
        push_text(&mut out, "^ ");
        push_text(&mut out, self.message.as_str());
        proof {
            assert(out@ =~= spec_pretty(self@, filename@, source@));
        }
        string_from_chars(&out)
    }
}

/// What a token is.
#[derive(Debug, PartialEq)]
pub enum TokenKind {
    /// A dot and a name; the token holds the name.
    Directive(String),
    /// A mnemonic, a register or a label: the assembler tells them apart.
    Symbol(String),
    /// A number literal, as the 16-bit word that it stands for.
    Number(u16),
    Comma,
    /// A string literal, without its quotes.
    Str(String),
    /// A line feed: it ends a statement.
    Newline,
}

/// A [`TokenKind`] as plain values.
pub enum TokenKindView {
    Directive(Seq<char>),
    Symbol(Seq<char>),
    Number(u16),
    Comma,
    Str(Seq<char>),
    Newline,
}

impl View for TokenKind {
    type V = TokenKindView;

    open spec fn view(&self) -> TokenKindView {
        match self {
            TokenKind::Directive(name) => TokenKindView::Directive(name@),
            TokenKind::Symbol(name) => TokenKindView::Symbol(name@),
            TokenKind::Number(word) => TokenKindView::Number(*word),
            TokenKind::Comma => TokenKindView::Comma,
            TokenKind::Str(content) => TokenKindView::Str(content@),
            TokenKind::Newline => TokenKindView::Newline,
        }
    }
}

/// A token and the place of its first character in the source text, counted
/// in characters.
#[derive(Debug, PartialEq)]
pub struct Token {
    pub kind: TokenKind,
    pub offset: usize,
}

/// A [`Token`] as plain values.
pub struct TokenView {
    pub kind: TokenKindView,
    pub offset: nat,
}

impl View for Token {
    type V = TokenView;

    open spec fn view(&self) -> TokenView {
        TokenView { kind: self.kind@, offset: self.offset as nat }
    }
}

/// The tokens of `tokens` as plain values.
pub open spec fn token_views(tokens: Seq<Token>) -> Seq<TokenView> {
    tokens.map_values(|token: Token| token@)
}

impl Clone for TokenKind {
    fn clone(&self) -> (copy: TokenKind)
        ensures
            copy == *self,
    {
        match self {
            TokenKind::Directive(name) => TokenKind::Directive(name.clone()),
            TokenKind::Symbol(name) => TokenKind::Symbol(name.clone()),
            TokenKind::Number(word) => TokenKind::Number(*word),
            TokenKind::Comma => TokenKind::Comma,
            TokenKind::Str(content) => TokenKind::Str(content.clone()),
            TokenKind::Newline => TokenKind::Newline,
        }
    }
}

impl Clone for Token {
    fn clone(&self) -> (copy: Token)
        ensures
            copy == *self,
    {
        Token { kind: self.kind.clone(), offset: self.offset }
    }
}

impl Token {
    /// A token of kind `kind` at `offset`.
    pub fn new(kind: TokenKind, offset: usize) -> (token: Token)
        ensures
            token == (Token { kind, offset }),
    {
        Token { kind, offset }
    }

    /// The directive named `string`, at `offset`.
    pub fn directive(string: &str, offset: usize) -> (token: Token)
        ensures
            token@ == (TokenView {
                kind: TokenKindView::Directive(string@),
                offset: offset as nat,
            }),
    {
        Token::new(TokenKind::Directive(String::from_str(string)), offset)
    }

    /// The symbol `string`, at `offset`.
    pub fn symbol(string: &str, offset: usize) -> (token: Token)
        ensures
            token@ == (TokenView { kind: TokenKindView::Symbol(string@), offset: offset as nat }),
    {
        Token::new(TokenKind::Symbol(String::from_str(string)), offset)
    }

    /// The number `number`, at `offset`.
    pub fn number(number: u16, offset: usize) -> (token: Token)
        ensures
            token == (Token { kind: TokenKind::Number(number), offset }),
    {
        Token::new(TokenKind::Number(number), offset)
    }

    /// The string literal with content `string`, at `offset`.
    pub fn str(string: &str, offset: usize) -> (token: Token)
        ensures
            token@ == (TokenView { kind: TokenKindView::Str(string@), offset: offset as nat }),
    {
        Token::new(TokenKind::Str(String::from_str(string)), offset)
    }

    /// A line end at `offset`.
    pub fn newline(offset: usize) -> (token: Token)
        ensures
            token == (Token { kind: TokenKind::Newline, offset }),
    {
        Token::new(TokenKind::Newline, offset)
    }

    /// A comma at `offset`.
    pub fn comma(offset: usize) -> (token: Token)
        ensures
            token == (Token { kind: TokenKind::Comma, offset }),
    {
        Token::new(TokenKind::Comma, offset)
    }
}

impl Item for char {
    open spec fn ends_line(&self) -> bool {
        *self == '\n'
    }

    fn is_newline(&self) -> (ends: bool) {
        *self == '\n'
    }

    fn duplicate(&self) -> (copy: Self) {
        *self
    }
}

impl Item for Token {
    open spec fn ends_line(&self) -> bool {
        self.kind is Newline
    }

    fn is_newline(&self) -> (ends: bool) {
        match self.kind {
            TokenKind::Newline => true,
            _ => false,
        }
    }

    fn duplicate(&self) -> (copy: Self) {
        self.clone()
    }
}


/// Accepts white space other than the line feed.
pub open spec fn blank() -> spec_fn(char) -> bool {
    |c: char| spec_is_blank(c)
}

/// Accepts letters and numbers.
pub open spec fn alphanumeric() -> spec_fn(char) -> bool {
    |c: char| spec_is_alphanumeric(c)
}

/// Accepts the characters of a symbol.
pub open spec fn symbol_char() -> spec_fn(char) -> bool {
    |c: char| spec_is_symbol_char(c)
}

/// Accepts everything but the line feed.
pub open spec fn not_newline() -> spec_fn(char) -> bool {
    |c: char| c != '\n'
}

/// Accepts everything but the double quote.
pub open spec fn not_quote() -> spec_fn(char) -> bool {
    |c: char| c != '"'
}

/// What the lexer finds at one place of the source text.
pub enum Scan {
    /// White space within a line, or a comment, up to `next`.
    Skip { next: int },
    /// A token, which ends before `next`.
    Emit { token: TokenView, next: int },
    /// Nothing that a source text may hold.
    Fail { error: LexErrorView },
}

/// Why a number literal is none, in words.
pub open spec fn reason(error: NumberError) -> Seq<char> {
    match error {
        NumberError::Empty => "cannot parse integer from empty string"@,
        NumberError::InvalidDigit { .. } => "invalid digit found in string"@,
        NumberError::Overflow => "number too large to fit in target type"@,
    }
}

/// The error for a number literal whose digits stand from `start` up to `end`
/// and are no number. The message opens with `intro` and cites the digits.
/// Where one of them is no digit, the error points at the first such;
/// otherwise at the last character of the literal.
pub open spec fn literal_error(
    src: Seq<char>,
    start: int,
    end: int,
    intro: Seq<char>,
    error: NumberError,
) -> LexErrorView {
    LexErrorView {
        message: intro + src.subrange(start, end) + "': "@ + reason(error),
        line: line_count(src.take(end)),
        character: match error {
            NumberError::InvalidDigit { index } => column(src.take(start)) + index as nat,
            _ => (column(src.take(end)) - 1) as nat,
        },
    }
}

/// A hexadecimal literal at `pos`: an `x` and a run of letters and numbers,
/// which must be hexadecimal digits.
pub open spec fn scan_hex(src: Seq<char>, pos: int) -> Scan {
    let start = pos + 1;
    let end = run_end(src, start, alphanumeric());
    match spec_parse_number(src.subrange(start, end), 16) {
        Ok(word) => Scan::Emit {
            token: TokenView { kind: TokenKindView::Number(word), offset: pos as nat },
            next: end,
        },
        Err(error) => Scan::Fail {
            error: literal_error(src, start, end, "invalid hex literal 'x"@, error),
        },
    }
}

/// A decimal literal that starts at `pos` and whose sign or digits start at
/// `from`: an optional `-` and a run of letters and numbers, which must be
/// decimal digits. With the `-` the token holds the two's complement of the
/// number.
pub open spec fn scan_decimal(src: Seq<char>, pos: int, from: int) -> Scan {
    let negative = from < src.len() && src[from] == '-';
    let start = if negative {
        from + 1
    } else {
        from
    };
    let end = run_end(src, start, alphanumeric());
    match spec_parse_number(src.subrange(start, end), 10) {
        Ok(word) => Scan::Emit {
            token: TokenView {
                kind: TokenKindView::Number(
                    if negative {
                        spec_flip_sign(word)
                    } else {
                        word
                    },
                ),
                offset: pos as nat,
            },
            next: end,
        },
        Err(error) => Scan::Fail {
            error: literal_error(src, start, end, "invalid decimal literal '"@, error),
        },
    }
}

/// What stands at `pos` in `src`, by the first rule that applies to the
/// character there.
pub open spec fn scan(src: Seq<char>, pos: int) -> Scan {
    let c = src[pos];
    if c == '\n' {
        Scan::Emit {
            token: TokenView { kind: TokenKindView::Newline, offset: pos as nat },
            next: pos + 1,
        }
    } else if spec_is_blank(c) {
        Scan::Skip { next: run_end(src, pos, blank()) }
    } else if c == ';' {
        Scan::Skip { next: run_end(src, pos, not_newline()) }
    } else if c == 'x' {
        scan_hex(src, pos)
    } else if c == '#' {
        scan_decimal(src, pos, pos + 1)
    } else if spec_is_numeric(c) || c == '-' {
        scan_decimal(src, pos, pos)
    } else if c == ',' {
        Scan::Emit {
            token: TokenView { kind: TokenKindView::Comma, offset: pos as nat },
            next: pos + 1,
        }
    } else if c == '.' {
        let end = run_end(src, pos + 1, alphanumeric());
        Scan::Emit {
            token: TokenView {
                kind: TokenKindView::Directive(src.subrange(pos + 1, end)),
                offset: pos as nat,
            },
            next: end,
        }
    } else if c == '"' {
        let end = run_end(src, pos + 1, not_quote());
        Scan::Emit {
            token: TokenView {
                kind: TokenKindView::Str(src.subrange(pos + 1, end)),
                offset: pos as nat,
            },
            next: if end < src.len() {
                end + 1
            } else {
                end
            },
        }
    } else if spec_is_alphabetic(c) {
        let end = run_end(src, pos, symbol_char());
        Scan::Emit {
            token: TokenView {
                kind: TokenKindView::Symbol(src.subrange(pos, end)),
                offset: pos as nat,
            },
            next: end,
        }
    } else {
        Scan::Fail {
            error: LexErrorView {
                message: "unexpected char "@ + seq![c],
                line: line_count(src.take(pos)),
                character: column(src.take(pos)),
            },
        }
    }
}

/// Whatever stands at `pos`, the lexer goes on behind it: further on in the
/// text, and not beyond its end.
pub proof fn lemma_scan_advances(src: Seq<char>, pos: int)
    requires
        0 <= pos < src.len(),
    ensures
        scan(src, pos) matches Scan::Skip { next } ==> pos < next <= src.len(),
        scan(src, pos) matches Scan::Emit { next, .. } ==> pos < next <= src.len(),
{
    lemma_run_end_bounds(src, pos, blank());
    lemma_run_end_bounds(src, pos, not_newline());
    lemma_run_end_bounds(src, pos, symbol_char());
    lemma_run_end_bounds(src, pos, alphanumeric());
    lemma_run_end_bounds(src, pos + 1, alphanumeric());
    lemma_run_end_bounds(src, pos + 1, not_quote());
    if pos + 2 <= src.len() {
        lemma_run_end_bounds(src, pos + 2, alphanumeric());
    }
}

/// The tokens of `src` from `pos` on, or the first error.
pub open spec fn lex_from(src: Seq<char>, pos: int) -> Result<Seq<TokenView>, LexErrorView>
    decreases src.len() - pos,
{
    if 0 <= pos < src.len() {
        proof {
            lemma_scan_advances(src, pos);
        }
        match scan(src, pos) {
            Scan::Skip { next } => lex_from(src, next),
            Scan::Emit { token, next } => match lex_from(src, next) {
                Ok(rest) => Ok(seq![token] + rest),
                Err(error) => Err(error),
            },
            Scan::Fail { error } => Err(error),
        }
    } else {
        Ok(Seq::empty())
    }
}

/// The tokens of a source text, or the first error in it.
pub open spec fn spec_lex(src: Seq<char>) -> Result<Seq<TokenView>, LexErrorView> {
    lex_from(src, 0)
}


/// Why a number literal is none, in words.
fn reason_text(error: NumberError) -> (text: &'static str)
    ensures
        text@ == reason(error),
{
    match error {
        NumberError::Empty => "cannot parse integer from empty string",
        NumberError::InvalidDigit { .. } => "invalid digit found in string",
        NumberError::Overflow => "number too large to fit in target type",
    }
}

/// A lexer at some place of a source text.
struct Lexer {
    reader: Reader<char>,
}

impl Lexer {
    /// The source text.
    spec fn source(&self) -> Seq<char> {
        self.reader.items()
    }

    /// The number of characters read so far.
    spec fn position(&self) -> int {
        self.reader.position() as int
    }

    spec fn wf(&self) -> bool {
        self.reader.wf()
    }

    /// A lexer at the start of `source`.
    fn from(source: &str) -> (lexer: Self)
        ensures
            lexer.wf(),
            lexer.source() == source@,
            lexer.position() == 0,
    {
        Lexer { reader: Reader::from(chars_of(source)) }
    }

    /// Reads tokens up to the end of the text or the first error.
    fn lex(&mut self) -> (result: Result<Vec<Token>, LexError>)
        requires
            old(self).wf(),
        ensures
            match result {
                Ok(tokens) => lex_from(old(self).source(), old(self).position()) == Ok::<
                    Seq<TokenView>,
                    LexErrorView,
                >(token_views(tokens@)),
                Err(error) => lex_from(old(self).source(), old(self).position()) == Err::<
                    Seq<TokenView>,
                    LexErrorView,
                >(error@),
            },
    {
        let mut tokens: Vec<Token> = Vec::new();
        let ghost src = self.source();
        let ghost start = self.position();
        proof {
            self.reader.lemma_wf();
            assert(token_views(tokens@) =~= Seq::empty());
            match lex_from(src, start) {
                Ok(rest) => {
                    assert(token_views(tokens@) + rest =~= rest);
                },
                Err(_) => {},
            }
        }
        loop
            invariant
                self.wf(),
                self.source() == src,
                src == old(self).source(),
                start == old(self).position(),
                0 <= self.position() <= src.len(),
                match lex_from(src, self.position()) {
                    Ok(rest) => lex_from(src, start) == Ok::<Seq<TokenView>, LexErrorView>(
                        token_views(tokens@) + rest,
                    ),
                    Err(error) => lex_from(src, start) == Err::<Seq<TokenView>, LexErrorView>(
                        error,
                    ),
                },
            ensures
                lex_from(src, start) == Ok::<Seq<TokenView>, LexErrorView>(token_views(tokens@)),
            decreases src.len() - self.position(),
        {
            let ghost pos = self.position();
            match self.reader.peek() {
                None => {
                    proof {
                        assert(token_views(tokens@) + Seq::<TokenView>::empty() =~= token_views(
                            tokens@,
                        ));
                    }
                    break ;
                },
                Some(c) => {
                    proof {
                        lemma_scan_advances(src, pos);
                    }
                    match self.lex_char(c) {
                        Err(error) => {
                            assert(lex_from(src, pos) == Err::<Seq<TokenView>, LexErrorView>(
                                error@,
                            ));
                            return Err(error);
                        },
                        Ok(None) => {
                            assert(lex_from(src, pos) == lex_from(src, self.position()));
                        },
                        Ok(Some(token)) => {
                            proof {
                                let ghost before = token_views(tokens@);
                                assert(lex_from(src, pos) == match lex_from(
                                    src,
                                    self.position(),
                                ) {
                                    Ok(rest) => Ok::<Seq<TokenView>, LexErrorView>(
                                        seq![token@] + rest,
                                    ),
                                    Err(error) => Err(error),
                                });
                                assert(token_views(tokens@.push(token)) =~= before.push(token@));
                                match lex_from(src, self.position()) {
                                    Ok(rest) => {
                                        assert(before + (seq![token@] + rest) =~= before.push(
                                            token@,
                                        ) + rest);
                                    },
                                    Err(_) => {},
                                }
                            }
                            tokens.push(token);
                        },
                    }
                },
            }
        }
        Ok(tokens)
    }

    /// Reads on for as long as `predicate` accepts the next character, and
    /// returns the characters read as a string.
    fn take_while<F: Fn(char) -> bool>(&mut self, predicate: F) -> (taken: String)
        requires
            old(self).wf(),
            forall|c: char| predicate.requires((c,)),
        ensures
            final(self).wf(),
            final(self).source() == old(self).source(),
            old(self).position() <= final(self).position() <= final(self).source().len(),
            taken@ == old(self).source().subrange(old(self).position(), final(self).position()),
            forall|i: int|
                old(self).position() <= i < final(self).position() ==> predicate.ensures(
                    (#[trigger] final(self).source()[i],),
                    true,
                ),
            final(self).position() == final(self).source().len() || predicate.ensures(
                (final(self).source()[final(self).position()],),
                false,
            ),
    {
        let taken = self.reader.take_while(predicate);
        string_from_chars(&taken)
    }

    /// Reads what stands at the next character, `c`: a token, white space or a
    /// comment, or an error.
    fn lex_char(&mut self, c: char) -> (result: Result<Option<Token>, LexError>)
        requires
            old(self).wf(),
            0 <= old(self).position() < old(self).source().len(),
            c == old(self).source()[old(self).position()],
        ensures
            final(self).wf(),
            final(self).source() == old(self).source(),
            match scan(old(self).source(), old(self).position()) {
                Scan::Skip { next } => result == Ok::<Option<Token>, LexError>(None)
                    && final(self).position() == next,
                Scan::Emit { token, next } => {
                    &&& result matches Ok(Some(found))
                    &&& found@ == token
                    &&& final(self).position() == next
                },
                Scan::Fail { error } => result matches Err(found) && found@ == error,
            },
    {
        let ghost src = self.source();
        let ghost pos = self.position();
        if c == '\n' {
            let offset = self.reader.offset();
            self.reader.next();
            return Ok(Some(Token { kind: TokenKind::Newline, offset }));
        }
        if is_blank_char(c) {
            self.reader.skip_while(is_blank_char);
            proof {
                lemma_run_end(src, pos, blank(), self.position());
            }
            return Ok(None);
        }
        if c == ';' {
            self.reader.skip_while(is_not_newline);
            proof {
                lemma_run_end(src, pos, not_newline(), self.position());
            }
            return Ok(None);
        }
        if c == 'x' {
            let offset = self.reader.offset();
            self.reader.next();
            let column = self.reader.item_in_line();
            proof {
                self.reader.lemma_wf();
            }
            let digits = self.reader.take_while(is_alphanumeric_char);
            proof {
                self.reader.lemma_wf();
                lemma_run_end(src, pos + 1, alphanumeric(), self.position());
            }
            return match parse_number(&digits, 16) {
                Ok(word) => Ok(Some(Token { kind: TokenKind::Number(word), offset })),
                Err(error) => Err(
                    self.number_error("invalid hex literal 'x", &digits, error, column),
                ),
            };
        }
        if c == '#' {
            let offset = self.reader.offset();
            self.reader.next();
            return match self.lex_decimal(offset) {
                Ok(token) => Ok(Some(token)),
                Err(error) => Err(error),
            };
        }
        if is_numeric_char(c) || c == '-' {
            let offset = self.reader.offset();
            return match self.lex_decimal(offset) {
                Ok(token) => Ok(Some(token)),
                Err(error) => Err(error),
            };
        }
        if c == ',' {
            let offset = self.reader.offset();
            self.reader.next();
            return Ok(Some(Token { kind: TokenKind::Comma, offset }));
        }
        if c == '.' {
            let offset = self.reader.offset();
            self.reader.next();
            let directive = self.take_while(is_alphanumeric_char);
            proof {
                lemma_run_end(src, pos + 1, alphanumeric(), self.position());
            }
            return Ok(Some(Token { kind: TokenKind::Directive(directive), offset }));
        }
        if c == '"' {
            let offset = self.reader.offset();
            self.reader.next();
            let string = self.take_while(is_not_quote);
            proof {
                lemma_run_end(src, pos + 1, not_quote(), self.position());
            }
            self.reader.next();
            return Ok(Some(Token { kind: TokenKind::Str(string), offset }));
        }
        if is_alphabetic_char(c) {
            let offset = self.reader.offset();
            let symbol = self.take_while(is_symbol_char);
            proof {
                lemma_run_end(src, pos, symbol_char(), self.position());
            }
            return Ok(Some(Token { kind: TokenKind::Symbol(symbol), offset }));
        }
        let mut message = String::from_str("unexpected char ");
        let mut one: Vec<char> = Vec::new();
        one.push(c);
        message.append(string_from_chars(&one).as_str());
        proof {
            self.reader.lemma_wf();
            assert(one@ =~= seq![c]);
        }
        Err(LexError { message, line: self.reader.line(), character: self.reader.item_in_line() })
    }

    /// Reads a decimal literal whose first character stands at `offset` and
    /// whose sign or digits come next.
    fn lex_decimal(&mut self, offset: usize) -> (result: Result<Token, LexError>)
        requires
            old(self).wf(),
            offset < old(self).source().len(),
            offset == old(self).position() || (offset + 1 == old(self).position() && old(
                self,
            ).source()[offset as int] == '#'),
            offset == old(self).position() ==> {
                let c = old(self).source()[offset as int];
                spec_is_numeric(c) || c == '-'
            },
        ensures
            final(self).wf(),
            final(self).source() == old(self).source(),
            match scan_decimal(old(self).source(), offset as int, old(self).position()) {
                Scan::Emit { token, next } => {
                    &&& result matches Ok(found)
                    &&& found@ == token
                    &&& final(self).position() == next
                },
                Scan::Fail { error } => result matches Err(found) && found@ == error,
                Scan::Skip { .. } => false,
            },
    {
        let ghost src = self.source();
        let ghost from = self.position();
        let negative = match self.reader.peek() {
            Some(c) => c == '-',
            None => false,
        };
        if negative {
            self.reader.next();
        }
        let ghost start = self.position();
        let column = self.reader.item_in_line();
        proof {
            self.reader.lemma_wf();
        }
        let digits = self.reader.take_while(is_alphanumeric_char);
        proof {
            self.reader.lemma_wf();
            lemma_run_end(src, start, alphanumeric(), self.position());
            if start == offset {
                assert(spec_is_alphanumeric(src[start]));
                assert(self.position() > start);
            }
        }
        match parse_number(&digits, 10) {
            Ok(word) => {
                let value = if negative {
                    flip_sign_twos_complement(word)
                } else {
                    word
                };
                Ok(Token { kind: TokenKind::Number(value), offset })
            },
            Err(error) => Err(
                self.number_error("invalid decimal literal '", &digits, error, column),
            ),
        }
    }

    /// The error for a number literal that has just been read and whose
    /// `digits` are no number. `column` is the place in its line of the first
    /// of them.
    fn number_error(
        &self,
        intro: &str,
        digits: &Vec<char>,
        error: NumberError,
        column: usize,
    ) -> (found: LexError)
        requires
            self.wf(),
            digits.len() <= self.position() <= self.source().len(),
            1 <= self.position(),
            digits@ == self.source().subrange(self.position() - digits.len(), self.position()),
            column == super::reader::column(
                self.source().take(self.position() - digits.len()),
            ),
            error matches NumberError::InvalidDigit { index } ==> index < digits.len(),
            self.source()[self.position() - 1] != '\n',
        ensures
            found@ == literal_error(
                self.source(),
                self.position() - digits.len(),
                self.position(),
                intro@,
                error,
            ),
    {
        let mut message = String::from_str(intro);
        message.append(string_from_chars(digits).as_str());
        message.append("': ");
        message.append(reason_text(error));
        proof {
            self.reader.lemma_wf();
            lemma_position_step(self.source(), self.position() - 1);
            if digits.len() > 0 {
                lemma_position_step(self.source(), self.position() - digits.len());
            }
        }
        let character = match error {
            NumberError::InvalidDigit { index } => column + index,
            _ => self.reader.item_in_line() - 1,
        };
        LexError { message, line: self.reader.line(), character }
    }
}

/// Splits a source text into tokens, or gives the first error in it.
pub fn lex(source: &str) -> (result: Result<Vec<Token>, LexError>)
    ensures
        match result {
            Ok(tokens) => spec_lex(source@) == Ok::<Seq<TokenView>, LexErrorView>(
                token_views(tokens@),
            ),
            Err(error) => spec_lex(source@) == Err::<Seq<TokenView>, LexErrorView>(error@),
        },
{
    Lexer::from(source).lex()
}

} // verus!
