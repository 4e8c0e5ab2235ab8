//! The lexer: source text to tokens, in one pass from left to right.
//!
//! A run of characters that is no token becomes an error token, and the lexer
//! goes on behind the next space or line end.

use crate::errors::LexError;
use crate::text::{chars_of, string_of};
use crate::token::{
    is_decimal, is_digit, lemma_token_views_push, points, read_decimal, read_number, token_views,
    Keyword, Operator, Token,
    TokenType, TokenTypeView, TokenView, Unary,
};
use crate::value::{Literal, LiteralView};
use vstd::prelude::*;

verus! {

/// Whether a character is one of the letters `a` to `z` and `A` to `Z`.
pub open spec fn is_letter(c: char) -> bool {
    ('a' <= c && c <= 'z') || ('A' <= c && c <= 'Z')
}

/// The characters that may follow a number or a word directly.
pub open spec fn is_break(c: char) -> bool {
    c == ' ' || c == '\r' || c == '\n' || c == '\t' || c == ';' || c == '(' || c == ')' || c == '{'
        || c == '}' || c == '+' || c == '-' || c == '*' || c == '/' || c == '%' || c == '='
        || c == '>' || c == '<'
}

/// Where the lexer goes on after an error that it found at `pos`: at the next
/// space or line end, or at the end of the text.
pub open spec fn sync_end(src: Seq<char>, pos: int) -> int
    decreases src.len() - pos,
{
    if pos >= src.len() {
        src.len() as int
    } else if src[pos] == ' ' || src[pos] == '\n' {
        pos
    } else {
        sync_end(src, pos + 1)
    }
}

/// How the scan of a number or of a word ends: where, and whether what was
/// read is well formed.
pub struct ScanEnd {
    pub end: int,
    pub valid: bool,
    pub dotted: bool,
}

/// Scans a number from `pos` on: digits, with at most one point. A second
/// point, or a character that is neither a digit nor may follow a number,
/// stops the scan as an error.
pub open spec fn number_scan(src: Seq<char>, pos: int, dotted: bool) -> ScanEnd
    decreases src.len() - pos,
{
    if pos >= src.len() {
        ScanEnd { end: src.len() as int, valid: true, dotted }
    } else if is_digit(src[pos]) {
        number_scan(src, pos + 1, dotted)
    } else if src[pos] == '.' {
        if dotted {
            ScanEnd { end: pos, valid: false, dotted }
        } else {
            number_scan(src, pos + 1, true)
        }
    } else {
        ScanEnd { end: pos, valid: is_break(src[pos]), dotted }
    }
}

/// The token kind of the number that starts at `pos`.
pub open spec fn number_class(src: Seq<char>, pos: int) -> TokenTypeView {
    let scan = number_scan(src, pos, false);
    if !scan.valid {
        TokenTypeView::Error(LexError::InvalidTokenError)
    } else if scan.dotted {
        TokenTypeView::decimal(src.subrange(pos, scan.end))
    } else {
        TokenTypeView::number(src.subrange(pos, scan.end))
    }
}

/// Scans a word from `pos` on: letters, digits and underscores.
pub open spec fn word_scan(src: Seq<char>, pos: int) -> ScanEnd
    decreases src.len() - pos,
{
    if pos >= src.len() {
        ScanEnd { end: src.len() as int, valid: true, dotted: false }
    } else if is_letter(src[pos]) || is_digit(src[pos]) || src[pos] == '_' {
        word_scan(src, pos + 1)
    } else {
        ScanEnd { end: pos, valid: is_break(src[pos]), dotted: false }
    }
}

/// What a word is: a keyword, else `and` or `or`, else `true` or `false`,
/// else an identifier.
pub open spec fn word_class(word: Seq<char>) -> TokenTypeView {
    if Keyword::spelled(word).is_some() {
        TokenTypeView::Keyword(Keyword::spelled(word).unwrap())
    } else if word == "and"@ {
        TokenTypeView::Operator(Operator::And)
    } else if word == "or"@ {
        TokenTypeView::Operator(Operator::Or)
    } else if word == "true"@ {
        TokenTypeView::Literal(LiteralView::Bool(true))
    } else if word == "false"@ {
        TokenTypeView::Literal(LiteralView::Bool(false))
    } else {
        TokenTypeView::Ident(word)
    }
}

/// The token kind of the word that starts at `pos`.
pub open spec fn word_token(src: Seq<char>, pos: int) -> TokenTypeView {
    let scan = word_scan(src, pos);
    if scan.valid {
        word_class(src.subrange(pos, scan.end))
    } else {
        TokenTypeView::Error(LexError::InvalidTokenError)
    }
}

/// What the character after a backslash adds to a string: the character it
/// names, or nothing where it names none.
pub open spec fn escaped(c: char) -> Seq<char> {
    if c == 'n' {
        seq!['\n']
    } else if c == 'r' {
        seq!['\r']
    } else if c == 't' {
        seq!['\t']
    } else if c == '\\' {
        seq!['\\']
    } else if c == '\'' {
        seq!['\'']
    } else if c == '"' {
        seq!['"']
    } else {
        Seq::empty()
    }
}

/// How the scan of a string ends: where, and with which content. There is no
/// content where the text ends before the closing quote.
pub struct StringEnd {
    pub end: int,
    pub content: Option<Seq<char>>,
}

/// Scans the inside of a string from `pos` on, up to and including the quote
/// that closes it. `content` is what was read before `pos`.
pub open spec fn string_scan(src: Seq<char>, pos: int, quote: char, content: Seq<char>) -> StringEnd
    decreases src.len() - pos,
{
    if pos >= src.len() {
        StringEnd { end: src.len() as int, content: None }
    } else if src[pos] == quote {
        StringEnd { end: pos + 1, content: Some(content) }
    } else if src[pos] == '\\' {
        if pos + 1 < src.len() {
            string_scan(src, pos + 2, quote, content + escaped(src[pos + 1]))
        } else {
            StringEnd { end: src.len() as int, content: None }
        }
    } else {
        string_scan(src, pos + 1, quote, content.push(src[pos]))
    }
}

/// The token kind of the string whose opening quote stands at `pos`.
pub open spec fn string_class(src: Seq<char>, pos: int) -> TokenTypeView {
    match string_scan(src, pos + 1, src[pos], Seq::empty()).content {
        Some(content) => TokenTypeView::Literal(LiteralView::String(content)),
        None => TokenTypeView::Error(LexError::UnterminatedStringError),
    }
}

/// Where the lexer stands: the next character to read, and its line and
/// column.
pub struct Cursor {
    pub pos: int,
    pub line: int,
    pub column: int,
}

/// The state of a run of the lexer: where it stands and what it has emitted.
pub struct LexState {
    pub at: Cursor,
    pub tokens: Seq<TokenView>,
}

impl LexState {
    /// Whether the token emitted last is a statement end.
    pub open spec fn after_stmt_end(self) -> bool {
        self.tokens.len() > 0 && self.tokens.last().class is StmtEnd
    }

    /// Whether a `-` read now negates: at the start, and behind a binary
    /// operator.
    pub open spec fn minus_is_unary(self) -> bool {
        self.tokens.len() == 0 || self.tokens.last().class is Operator
    }

    /// The state after `width` characters were passed over without a token.
    pub open spec fn skipped(self, width: int) -> LexState {
        LexState {
            at: Cursor {
                pos: self.at.pos + width,
                line: self.at.line,
                column: self.at.column + width,
            },
            tokens: self.tokens,
        }
    }

    /// The state after a token of the given kind was read up to `end`. Behind
    /// an error token the lexer goes on at the next space or line end.
    pub open spec fn emitted(self, src: Seq<char>, class: TokenTypeView, end: int) -> LexState {
        let stop = if class is Error {
            sync_end(src, end)
        } else {
            end
        };
        LexState {
            at: Cursor {
                pos: stop,
                line: self.at.line,
                column: self.at.column + (stop - self.at.pos),
            },
            tokens: self.tokens.push(
                TokenView {
                    class,
                    start: self.at.column as u32,
                    line: self.at.line as u32,
                },
            ),
        }
    }

    /// A statement end at the cursor, unless the token before is one already.
    pub open spec fn ended(self, src: Seq<char>) -> LexState {
        if self.after_stmt_end() {
            self.skipped(1)
        } else {
            self.emitted(src, TokenTypeView::StmtEnd, self.at.pos + 1)
        }
    }

    /// One of two operators, by whether `=` follows the first character.
    pub open spec fn paired(
        self,
        src: Seq<char>,
        long: TokenTypeView,
        short: TokenTypeView,
    ) -> LexState {
        if self.at.pos + 1 < src.len() && src[self.at.pos + 1] == '=' {
            self.emitted(src, long, self.at.pos + 2)
        } else {
            self.emitted(src, short, self.at.pos + 1)
        }
    }

    /// The state after the lexer has dealt with the character at the cursor:
    /// read the token that starts there, or passed over white space.
    pub open spec fn step(self, src: Seq<char>) -> LexState
        recommends
            0 <= self.at.pos < src.len(),
    {
        let pos = self.at.pos;
        let c = src[pos];
        if is_digit(c) {
            self.emitted(src, number_class(src, pos), number_scan(src, pos, false).end)
        } else if is_letter(c) {
            self.emitted(src, word_token(src, pos), word_scan(src, pos).end)
        } else if c == '"' || c == '\'' {
            self.emitted(
                src,
                string_class(src, pos),
                string_scan(src, pos + 1, c, Seq::empty()).end,
            )
        } else if c == '+' {
            self.emitted(src, TokenTypeView::Operator(Operator::Add), pos + 1)
        } else if c == '*' {
            self.emitted(src, TokenTypeView::Operator(Operator::Mul), pos + 1)
        } else if c == '/' {
            self.emitted(src, TokenTypeView::Operator(Operator::Div), pos + 1)
        } else if c == '%' {
            self.emitted(src, TokenTypeView::Operator(Operator::Mod), pos + 1)
        } else if c == '-' {
            if self.minus_is_unary() {
                self.emitted(src, TokenTypeView::Unary(Unary::Neg), pos + 1)
            } else {
                self.emitted(src, TokenTypeView::Operator(Operator::Sub), pos + 1)
            }
        } else if c == '>' {
            self.paired(
                src,
                TokenTypeView::Operator(Operator::GreaterEqual),
                TokenTypeView::Operator(Operator::Greater),
            )
        } else if c == '<' {
            self.paired(
                src,
                TokenTypeView::Operator(Operator::LessEqual),
                TokenTypeView::Operator(Operator::Less),
            )
        } else if c == '!' {
            self.paired(
                src,
                TokenTypeView::Operator(Operator::NotEqual),
                TokenTypeView::Unary(Unary::Not),
            )
        } else if c == '=' {
            self.paired(src, TokenTypeView::Operator(Operator::Equal), TokenTypeView::Assign)
        } else if c == '(' {
            self.emitted(src, TokenTypeView::Lparen, pos + 1)
        } else if c == ')' {
            self.emitted(src, TokenTypeView::Rparen, pos + 1)
        } else if c == '{' {
            self.emitted(src, TokenTypeView::Lbrace, pos + 1)
        } else if c == '}' {
            self.emitted(src, TokenTypeView::Rbrace, pos + 1)
        } else if c == ' ' || c == '\t' || c == '\r' {
            self.skipped(1)
        } else if c == ';' {
            self.ended(src)
        } else if c == '\n' {
            let ended = self.ended(src);
            LexState {
                at: Cursor { pos: pos + 1, line: self.at.line + 1, column: 0 },
                tokens: ended.tokens,
            }
        } else {
            self.emitted(src, TokenTypeView::Error(LexError::InvalidTokenError), pos)
        }
    }

    /// The tokens of the whole text, for a lexer in this state: what it has
    /// emitted, what the rest of the text gives, and the end-of-file token.
    pub open spec fn run(self, src: Seq<char>) -> Seq<TokenView>
        decreases src.len() - self.at.pos,
    {
        if self.at.pos < 0 || self.at.pos >= src.len() {
            self.tokens.push(
                TokenView {
                    class: TokenTypeView::Eof,
                    start: self.at.column as u32,
                    line: self.at.line as u32,
                },
            )
        } else {
            let next = self.step(src);
            if self.at.pos < next.at.pos <= src.len() {
                next.run(src)
            } else {
                self.tokens
            }
        }
    }
}

/// The tokens of a source text.
pub open spec fn lex_spec(src: Seq<char>) -> Seq<TokenView> {
    LexState { at: Cursor { pos: 0, line: 1, column: 0 }, tokens: Seq::empty() }.run(src)
}

/// The lexer goes on inside the text behind an error, and behind the
/// character that is the error.
pub proof fn lemma_sync_end_bounds(src: Seq<char>, pos: int)
    requires
        0 <= pos <= src.len(),
    ensures
        pos <= sync_end(src, pos) <= src.len(),
        pos < src.len() && src[pos] != ' ' && src[pos] != '\n' ==> pos < sync_end(src, pos),
    decreases src.len() - pos,
{
    if pos < src.len() && !(src[pos] == ' ' || src[pos] == '\n') {
        lemma_sync_end_bounds(src, pos + 1);
    }
}

/// The scan of a number ends inside the text.
pub proof fn lemma_number_scan_bounds(src: Seq<char>, pos: int, dotted: bool)
    requires
        0 <= pos <= src.len(),
    ensures
        pos <= number_scan(src, pos, dotted).end <= src.len(),
    decreases src.len() - pos,
{
    if pos < src.len() {
        if is_digit(src[pos]) {
            lemma_number_scan_bounds(src, pos + 1, dotted);
        } else if src[pos] == '.' && !dotted {
            lemma_number_scan_bounds(src, pos + 1, true);
        }
    }
}

/// The scan of a word ends inside the text.
pub proof fn lemma_word_scan_bounds(src: Seq<char>, pos: int)
    requires
        0 <= pos <= src.len(),
    ensures
        pos <= word_scan(src, pos).end <= src.len(),
    decreases src.len() - pos,
{
    if pos < src.len() && (is_letter(src[pos]) || is_digit(src[pos]) || src[pos] == '_') {
        lemma_word_scan_bounds(src, pos + 1);
    }
}

/// The scan of a string ends inside the text.
pub proof fn lemma_string_scan_bounds(src: Seq<char>, pos: int, quote: char, content: Seq<char>)
    requires
        0 <= pos <= src.len(),
    ensures
        pos <= string_scan(src, pos, quote, content).end <= src.len(),
    decreases src.len() - pos,
{
    if pos < src.len() && src[pos] != quote {
        if src[pos] == '\\' {
            if pos + 1 < src.len() {
                lemma_string_scan_bounds(src, pos + 2, quote, content + escaped(src[pos + 1]));
            }
        } else {
            lemma_string_scan_bounds(src, pos + 1, quote, content.push(src[pos]));
        }
    }
}

impl LexState {
    /// Well-formedness: the cursor is inside the text, and line and column
    /// are what the characters before it allow.
    pub open spec fn wf(self, src: Seq<char>) -> bool {
        &&& 0 <= self.at.pos <= src.len()
        &&& 0 <= self.at.column <= self.at.pos
        &&& 1 <= self.at.line <= self.at.pos + 1
    }

    /// Every step of the lexer moves the cursor forward and stays inside the
    /// text.
    pub proof fn lemma_step_advances(self, src: Seq<char>)
        requires
            self.wf(src),
            self.at.pos < src.len(),
        ensures
            self.step(src).wf(src),
            self.step(src).at.pos > self.at.pos,
            self.step(src).tokens.len() <= self.tokens.len() + 1,
            self.tokens.len() <= self.step(src).tokens.len(),
    {
        let pos = self.at.pos;
        let c = src[pos];
        lemma_number_scan_bounds(src, pos + 1, false);
        lemma_word_scan_bounds(src, pos + 1);
        lemma_string_scan_bounds(src, pos + 1, c, Seq::empty());
        lemma_sync_end_bounds(src, pos);
        lemma_sync_end_bounds(src, pos + 1);
        if pos + 2 <= src.len() {
            lemma_sync_end_bounds(src, pos + 2);
        }
        lemma_sync_end_bounds(src, number_scan(src, pos + 1, false).end);
        lemma_sync_end_bounds(src, word_scan(src, pos + 1).end);
        lemma_sync_end_bounds(src, string_scan(src, pos + 1, c, Seq::empty()).end);
    }
}


impl Cursor {
    /// The cursor after the characters up to `end` were read on one line.
    pub open spec fn moved_to(self, end: int) -> Cursor {
        Cursor { pos: end, line: self.line, column: self.column + (end - self.pos) }
    }
}

/// A lexer over one source text.
pub struct Lexer {
    source: Vec<char>,
    line: u32,
    pos: usize,
    token_start: u32,
}

fn digit(c: char) -> (r: bool)
    ensures
        r == is_digit(c),
{
    '0' <= c && c <= '9'
}

fn letter(c: char) -> (r: bool)
    ensures
        r == is_letter(c),
{
    ('a' <= c && c <= 'z') || ('A' <= c && c <= 'Z')
}

fn breaks(c: char) -> (r: bool)
    ensures
        r == is_break(c),
{
    c == ' ' || c == '\r' || c == '\n' || c == '\t' || c == ';' || c == '(' || c == ')' || c == '{'
        || c == '}' || c == '+' || c == '-' || c == '*' || c == '/' || c == '%' || c == '='
        || c == '>' || c == '<'
}

fn classify(word: &Vec<char>) -> (r: TokenType)
    ensures
        r@ == word_class(word@),
{
    let text = string_of(word);
    let and = String::from_str("and");
    let or = String::from_str("or");
    let yes = String::from_str("true");
    let no = String::from_str("false");
    match Keyword::new_keyword(text.as_str()) {
        Some(keyword) => TokenType::Keyword(keyword),
        None => if text == and {
            TokenType::Operator(Operator::And)
        } else if text == or {
            TokenType::Operator(Operator::Or)
        } else if text == yes {
            TokenType::Literal(Literal::Bool(true))
        } else if text == no {
            TokenType::Literal(Literal::Bool(false))
        } else {
            TokenType::Ident(text)
        },
    }
}

impl Lexer {
    #[verifier::type_invariant]
    spec fn inv(self) -> bool {
        &&& self.pos <= self.source@.len() < u32::MAX
        &&& self.token_start <= self.pos
        &&& 1 <= self.line <= self.pos + 1
    }

    /// The text that the lexer reads.
    pub closed spec fn source(&self) -> Seq<char> {
        self.source@
    }

    /// Where the lexer stands in its text.
    pub closed spec fn cursor(&self) -> Cursor {
        Cursor { pos: self.pos as int, line: self.line as int, column: self.token_start as int }
    }

    /// A lexer at the start of the text: line 1, column 0.
    pub fn new(source: &str) -> (lexer: Lexer)
        requires
            source@.len() < u32::MAX,
        ensures
            lexer.source() == source@,
            lexer.cursor() == (Cursor { pos: 0, line: 1, column: 0 }),
    {
        Lexer { source: chars_of(source), line: 1, pos: 0, token_start: 0 }
    }

    /// The character at the cursor, if the text has not ended.
    fn current(&self) -> (c: Option<char>)
        ensures
            c == if self.pos < self.source@.len() {
                Some(self.source@[self.pos as int])
            } else {
                None
            },
    {
        if self.pos < self.source.len() {
            Some(self.source[self.pos])
        } else {
            None
        }
    }

    /// Moves the cursor over one character; at the end of the text it stays.
    fn advance(&mut self)
        ensures
            final(self).source@ == old(self).source@,
            final(self).line == old(self).line,
            old(self).pos < old(self).source@.len() ==> final(self).pos == old(self).pos + 1
                && final(self).token_start == old(self).token_start + 1,
            old(self).pos >= old(self).source@.len() ==> final(self).pos == old(self).pos
                && final(self).token_start == old(self).token_start,
    {
        proof {
            use_type_invariant(&*self);
        }
        if self.pos < self.source.len() {
            self.pos = self.pos + 1;
            self.token_start = self.token_start + 1;
        }
    }

    /// Moves the cursor to the next space or line end, or to the end of the
    /// text.
    fn synchronize_position(&mut self)
        ensures
            final(self).source@ == old(self).source@,
            final(self).line == old(self).line,
            final(self).pos == sync_end(old(self).source@, old(self).pos as int),
            final(self).token_start - old(self).token_start == final(self).pos - old(self).pos,
    {
        proof {
            use_type_invariant(&*self);
        }
        let ghost src = self.source@;
        let ghost from = self.pos as int;
        let ghost column = self.token_start as int;
        let mut done = false;
        while !done
            invariant
                src == old(self).source@,
                from == old(self).pos,
                column == old(self).token_start,
                self.source@ == src,
                self.line == old(self).line,
                from <= self.pos <= src.len(),
                self.token_start - column == self.pos - from,
                sync_end(src, from) == sync_end(src, self.pos as int),
                done ==> sync_end(src, self.pos as int) == self.pos,
            decreases src.len() - self.pos + if done { 0int } else { 1int },
        {
            match self.current() {
                Some(c) => {
                    if c == ' ' || c == '\n' {
                        done = true;
                    } else {
                        self.advance();
                    }
                },
                None => {
                    done = true;
                },
            }
        }
    }

    /// Reads the number that starts at the cursor: digits with at most one
    /// point. The cursor stops behind it, or at the character that spoils it.
    pub fn lex_number(&mut self) -> (r: TokenType)
        ensures
            final(self).source() == old(self).source(),
            r@ == number_class(old(self).source(), old(self).cursor().pos),
            final(self).cursor() == old(self).cursor().moved_to(
                number_scan(old(self).source(), old(self).cursor().pos, false).end,
            ),
    {
        proof {
            use_type_invariant(&*self);
        }
        let ghost src = self.source@;
        let ghost from = self.pos as int;
        let ghost column = self.token_start as int;
        let mut text: Vec<char> = Vec::new();
        let mut dotted = false;
        let mut done = false;
        while !done
            invariant
                src == old(self).source@,
                from == old(self).pos,
                column == old(self).token_start,
                self.source@ == src,
                self.line == old(self).line,
                from <= self.pos <= src.len(),
                self.token_start - column == self.pos - from,
                text@ == src.subrange(from, self.pos as int),
                number_scan(src, from, false) == number_scan(src, self.pos as int, dotted),
                done ==> number_scan(src, self.pos as int, dotted) == (ScanEnd {
                    end: self.pos as int,
                    valid: true,
                    dotted,
                }),
            decreases src.len() - self.pos + if done { 0int } else { 1int },
        {
            match self.current() {
                None => {
                    done = true;
                },
                Some(c) => {
                    if digit(c) {
                        text.push(c);
                        self.advance();
                        assert(text@ =~= src.subrange(from, self.pos as int));
                    } else if c == '.' {
                        if dotted {
                            return TokenType::Error(LexError::InvalidTokenError);
                        }
                        dotted = true;
                        text.push(c);
                        self.advance();
                        assert(text@ =~= src.subrange(from, self.pos as int));
                    } else if breaks(c) {
                        done = true;
                    } else {
                        return TokenType::Error(LexError::InvalidTokenError);
                    }
                },
            }
        }
        if dotted {
            if read_decimal(&text) {
                TokenType::Decimal(string_of(&text))
            } else {
                TokenType::Error(LexError::InvalidTokenError)
            }
        } else {
            match read_number(&text) {
                Some(n) => TokenType::Literal(Literal::Number(n)),
                None => TokenType::Error(LexError::InvalidTokenError),
            }
        }
    }

    /// Reads the string whose opening quote stands at the cursor. The cursor
    /// stops behind the closing quote, or at the end of the text where there
    /// is none.
    pub fn lex_string(&mut self) -> (r: TokenType)
        requires
            old(self).cursor().pos < old(self).source().len(),
        ensures
            final(self).source() == old(self).source(),
            r@ == string_class(old(self).source(), old(self).cursor().pos),
            final(self).cursor() == old(self).cursor().moved_to(
                string_scan(
                    old(self).source(),
                    old(self).cursor().pos + 1,
                    old(self).source()[old(self).cursor().pos],
                    Seq::empty(),
                ).end,
            ),
    {
        proof {
            use_type_invariant(&*self);
        }
        let ghost src = self.source@;
        let ghost from = self.pos as int;
        let ghost column = self.token_start as int;
        let quote = self.source[self.pos];
        let mut content: Vec<char> = Vec::new();
        self.advance();
        let ghost whole = string_scan(src, from + 1, quote, Seq::empty());
        while self.pos < self.source.len()
            invariant
                src == old(self).source@,
                from == old(self).pos,
                column == old(self).token_start,
                quote == src[from],
                self.source@ == src,
                self.line == old(self).line,
                from < self.pos <= src.len(),
                self.token_start - column == self.pos - from,
                whole == string_scan(src, from + 1, quote, Seq::empty()),
                whole == string_scan(src, self.pos as int, quote, content@),
            decreases src.len() - self.pos,
        {
            let c = self.source[self.pos];
            if c == quote {
                self.advance();
                return TokenType::Literal(Literal::String(string_of(&content)));
            } else if c == '\\' {
                self.advance();
                match self.current() {
                    Some(e) => {
                        let ghost before = content@;
                        if e == 'n' {
                            content.push('\n');
                        } else if e == 'r' {
                            content.push('\r');
                        } else if e == 't' {
                            content.push('\t');
                        } else if e == '\\' {
                            content.push('\\');
                        } else if e == '\'' {
                            content.push('\'');
                        } else if e == '"' {
                            content.push('"');
                        }
                        assert(content@ =~= before + escaped(e));
                        self.advance();
                    },
                    None => {},
                }
            } else {
                content.push(c);
                self.advance();
            }
        }
        TokenType::Error(LexError::UnterminatedStringError)
    }

    /// Reads the word that starts at the cursor and says what it is. The
    /// cursor stops behind it, or at the character that spoils it.
    pub fn lex_keyword_or_identifier(&mut self) -> (r: TokenType)
        ensures
            final(self).source() == old(self).source(),
            r@ == word_token(old(self).source(), old(self).cursor().pos),
            final(self).cursor() == old(self).cursor().moved_to(
                word_scan(old(self).source(), old(self).cursor().pos).end,
            ),
    {
        proof {
            use_type_invariant(&*self);
        }
        let ghost src = self.source@;
        let ghost from = self.pos as int;
        let ghost column = self.token_start as int;
        let mut word: Vec<char> = Vec::new();
        let mut done = false;
        while !done
            invariant
                src == old(self).source@,
                from == old(self).pos,
                column == old(self).token_start,
                self.source@ == src,
                self.line == old(self).line,
                from <= self.pos <= src.len(),
                self.token_start - column == self.pos - from,
                word@ == src.subrange(from, self.pos as int),
                word_scan(src, from) == word_scan(src, self.pos as int),
                done ==> word_scan(src, self.pos as int) == (ScanEnd {
                    end: self.pos as int,
                    valid: true,
                    dotted: false,
                }),
            decreases src.len() - self.pos + if done { 0int } else { 1int },
        {
            match self.current() {
                None => {
                    done = true;
                },
                Some(c) => {
                    if letter(c) || digit(c) || c == '_' {
                        word.push(c);
                        self.advance();
                        assert(word@ =~= src.subrange(from, self.pos as int));
                    } else if breaks(c) {
                        done = true;
                    } else {
                        return TokenType::Error(LexError::InvalidTokenError);
                    }
                },
            }
        }
        classify(&word)
    }

    /// One of two token kinds, by whether `=` follows the character at the
    /// cursor; the cursor moves behind what was read.
    fn lex_pair(&mut self, long: TokenType, short: TokenType) -> (r: TokenType)
        requires
            old(self).pos < old(self).source@.len(),
        ensures
            final(self).source@ == old(self).source@,
            final(self).line == old(self).line,
            final(self).token_start - old(self).token_start == final(self).pos - old(self).pos,
            old(self).pos + 1 < old(self).source@.len() && old(self).source@[old(self).pos + 1]
                == '=' ==> r == long && final(self).pos == old(self).pos + 2,
            !(old(self).pos + 1 < old(self).source@.len() && old(self).source@[old(self).pos + 1]
                == '=') ==> r == short && final(self).pos == old(self).pos + 1,
    {
        self.advance();
        match self.current() {
            Some(c) => {
                if c == '=' {
                    self.advance();
                    long
                } else {
                    short
                }
            },
            None => short,
        }
    }

    /// The tokens of the text from the cursor on, closed by the end-of-file
    /// token. The cursor ends at the end of the text.
    pub fn lex(&mut self) -> (tokens: Vec<Token>)
        ensures
            final(self).source() == old(self).source(),
            final(self).cursor().pos == old(self).source().len(),
            token_views(tokens@) == (LexState {
                at: old(self).cursor(),
                tokens: Seq::empty(),
            }).run(old(self).source()),
            closed_by_eof(token_views(tokens@)),
            ends_collapsed(token_views(tokens@)),
            tokens@.len() > 0,
            tokens@.last()@.class is Eof,
            tokens@.len() <= old(self).source().len() - old(self).cursor().pos + 1,
    {
        proof {
            use_type_invariant(&*self);
            (LexState { at: self.cursor(), tokens: Seq::empty() }).lemma_run_shape(self.source@);
            (LexState { at: self.cursor(), tokens: Seq::empty() }).lemma_run_length(self.source@);
        }
        let ghost src = self.source@;
        let ghost whole = (LexState { at: self.cursor(), tokens: Seq::empty() }).run(src);
        let mut tokens: Vec<Token> = Vec::new();
        assert(token_views(tokens@) =~= Seq::empty());
        while self.pos < self.source.len()
            invariant
                src == old(self).source@,
                self.source@ == src,
                self.pos <= src.len() < u32::MAX,
                self.token_start <= self.pos,
                1 <= self.line <= self.pos + 1,
                whole == (LexState { at: self.cursor(), tokens: token_views(tokens@) }).run(src),
            decreases src.len() - self.pos,
        {
            let ghost state = LexState { at: self.cursor(), tokens: token_views(tokens@) };
            proof {
                state.lemma_step_advances(src);
                lemma_sync_end_bounds(src, self.pos as int);
            }
            let c = self.source[self.pos];
            let start = self.token_start;
            let line = self.line;
            let after_end = tokens.len() > 0 && matches!(
                tokens[tokens.len() - 1].class,
                TokenType::StmtEnd
            );
            let unary = tokens.len() == 0 || matches!(
                tokens[tokens.len() - 1].class,
                TokenType::Operator(_)
            );
            assert(after_end == state.after_stmt_end());
            assert(unary == state.minus_is_unary());
            let class: Option<TokenType> = if digit(c) {
                Some(self.lex_number())
            } else if letter(c) {
                Some(self.lex_keyword_or_identifier())
            } else if c == '"' || c == '\'' {
                Some(self.lex_string())
            } else if c == '+' {
                self.advance();
                Some(TokenType::Operator(Operator::Add))
            } else if c == '*' {
                self.advance();
                Some(TokenType::Operator(Operator::Mul))
            } else if c == '/' {
                self.advance();
                Some(TokenType::Operator(Operator::Div))
            } else if c == '%' {
                self.advance();
                Some(TokenType::Operator(Operator::Mod))
            } else if c == '-' {
                self.advance();
                if unary {
                    Some(TokenType::Unary(Unary::Neg))
                } else {
                    Some(TokenType::Operator(Operator::Sub))
                }
            } else if c == '>' {
                Some(
                    self.lex_pair(
                        TokenType::Operator(Operator::GreaterEqual),
                        TokenType::Operator(Operator::Greater),
                    ),
                )
            } else if c == '<' {
                Some(
                    self.lex_pair(
                        TokenType::Operator(Operator::LessEqual),
                        TokenType::Operator(Operator::Less),
                    ),
                )
            } else if c == '!' {
                Some(
                    self.lex_pair(
                        TokenType::Operator(Operator::NotEqual),
                        TokenType::Unary(Unary::Not),
                    ),
                )
            } else if c == '=' {
                Some(self.lex_pair(TokenType::Operator(Operator::Equal), TokenType::Assign))
            } else if c == '(' {
                self.advance();
                Some(TokenType::Lparen)
            } else if c == ')' {
                self.advance();
                Some(TokenType::Rparen)
            } else if c == '{' {
                self.advance();
                Some(TokenType::Lbrace)
            } else if c == '}' {
                self.advance();
                Some(TokenType::Rbrace)
            } else if c == ' ' || c == '\t' || c == '\r' {
                self.advance();
                None
            } else if c == ';' || c == '\n' {
                self.advance();
                if after_end {
                    None
                } else {
                    Some(TokenType::StmtEnd)
                }
            } else {
                Some(TokenType::Error(LexError::InvalidTokenError))
            };
            match class {
                Some(class) => {
                    if matches!(class, TokenType::Error(_)) {
                        self.synchronize_position();
                    }
                    let token = Token { class, start, line };
                    proof {
                        lemma_token_views_push(tokens@, token);
                    }
                    tokens.push(token);
                },
                None => {},
            }
            if c == '\n' {
                self.line = self.line + 1;
                self.token_start = 0;
            }
            assert((LexState { at: self.cursor(), tokens: token_views(tokens@) }) == state.step(
                src,
            ));
        }
        let end = Token { class: TokenType::Eof, start: self.token_start, line: self.line };
        proof {
            lemma_token_views_push(tokens@, end);
        }
        tokens.push(end);
        tokens
    }
}


/// Whether the end-of-file token closes the tokens and stands nowhere else.
pub open spec fn closed_by_eof(tokens: Seq<TokenView>) -> bool {
    &&& tokens.len() > 0
    &&& tokens.last().class is Eof
    &&& forall|i: int| 0 <= i < tokens.len() - 1 ==> !((#[trigger] tokens[i]).class is Eof)
}

/// Whether no statement end follows another directly.
pub open spec fn ends_collapsed(tokens: Seq<TokenView>) -> bool {
    forall|i: int|
        0 <= i < tokens.len() - 1 ==> !((#[trigger] tokens[i]).class is StmtEnd && tokens[i
            + 1].class is StmtEnd)
}

impl LexState {
    /// A step of the lexer emits at most one token. It is never the
    /// end-of-file token, and it is a statement end only where the token
    /// before is none.
    pub proof fn lemma_step_emits(self, src: Seq<char>)
        requires
            self.wf(src),
            self.at.pos < src.len(),
        ensures
            self.step(src).tokens == self.tokens || (self.step(src).tokens.len()
                == self.tokens.len() + 1 && self.step(src).tokens.drop_last() == self.tokens
                && !(self.step(src).tokens.last().class is Eof) && (self.step(
                src,
            ).tokens.last().class is StmtEnd ==> !self.after_stmt_end())),
    {
        let next = self.step(src);
        if next.tokens != self.tokens {
            assert(next.tokens.drop_last() =~= self.tokens);
        }
    }

    /// The tokens of a run end with the end-of-file token, which stands
    /// nowhere else, and no statement end follows another directly.
    pub proof fn lemma_run_shape(self, src: Seq<char>)
        requires
            self.wf(src),
            forall|i: int|
                0 <= i < self.tokens.len() ==> !((#[trigger] self.tokens[i]).class is Eof),
            ends_collapsed(self.tokens),
        ensures
            closed_by_eof(self.run(src)),
            ends_collapsed(self.run(src)),
        decreases src.len() - self.at.pos,
    {
        if self.at.pos < src.len() {
            let next = self.step(src);
            self.lemma_step_advances(src);
            self.lemma_step_emits(src);
            assert forall|i: int| 0 <= i < next.tokens.len() implies !((
            #[trigger] next.tokens[i]).class is Eof) by {
                if i < self.tokens.len() {
                    assert(next.tokens[i] == self.tokens[i]);
                }
            }
            assert forall|i: int| 0 <= i < next.tokens.len() - 1 implies !((
            #[trigger] next.tokens[i]).class is StmtEnd && next.tokens[i + 1].class is StmtEnd) by {
                if next.tokens != self.tokens {
                    assert(next.tokens[i] == self.tokens[i]);
                    if i + 1 < self.tokens.len() {
                        assert(next.tokens[i + 1] == self.tokens[i + 1]);
                    }
                }
            }
            next.lemma_run_shape(src);
        } else {
            let all = self.run(src);
            assert forall|i: int| 0 <= i < all.len() - 1 implies !((
            #[trigger] all[i]).class is Eof) by {
                assert(all[i] == self.tokens[i]);
            }
            assert forall|i: int| 0 <= i < all.len() - 1 implies !((
            #[trigger] all[i]).class is StmtEnd && all[i + 1].class is StmtEnd) by {
                assert(all[i] == self.tokens[i]);
                if i + 1 < self.tokens.len() {
                    assert(all[i + 1] == self.tokens[i + 1]);
                }
            }
        }
    }
}

impl LexState {
    /// A run emits one token at most for each character that is left, and
    /// the end-of-file token.
    pub proof fn lemma_run_length(self, src: Seq<char>)
        requires
            self.wf(src),
        ensures
            self.run(src).len() <= self.tokens.len() + (src.len() - self.at.pos) + 1,
        decreases src.len() - self.at.pos,
    {
        if self.at.pos < src.len() {
            self.lemma_step_advances(src);
            self.step(src).lemma_run_length(src);
        }
    }
}

/// A source text gives one token at most for each of its characters, and the
/// end-of-file token.
pub proof fn lemma_lex_length(src: Seq<char>)
    ensures
        lex_spec(src).len() <= src.len() + 1,
{
    (LexState { at: Cursor { pos: 0, line: 1, column: 0 }, tokens: Seq::empty() }).lemma_run_length(
        src,
    );
}

/// The tokens of any source text end with the end-of-file token, which
/// stands nowhere else, and no statement end follows another directly.
pub proof fn lemma_lex_shape(src: Seq<char>)
    ensures
        closed_by_eof(lex_spec(src)),
        ends_collapsed(lex_spec(src)),
{
    (LexState { at: Cursor { pos: 0, line: 1, column: 0 }, tokens: Seq::empty() }).lemma_run_shape(
        src,
    );
}


proof fn lemma_scan_points(src: Seq<char>, start: int, pos: int, dotted: bool)
    requires
        0 <= start <= pos <= src.len(),
        forall|i: int| start <= i < pos ==> is_digit(#[trigger] src[i]) || src[i] == '.',
        points(src.subrange(start, pos)) == if dotted {
            1nat
        } else {
            0nat
        },
        number_scan(src, pos, dotted).valid,
    ensures
        pos <= number_scan(src, pos, dotted).end <= src.len(),
        forall|i: int|
            start <= i < number_scan(src, pos, dotted).end ==> is_digit(#[trigger] src[i])
                || src[i] == '.',
        points(src.subrange(start, number_scan(src, pos, dotted).end)) == if number_scan(
            src,
            pos,
            dotted,
        ).dotted {
            1nat
        } else {
            0nat
        },
    decreases src.len() - pos,
{
    if pos < src.len() {
        let longer = src.subrange(start, pos + 1);
        assert(longer.drop_last() =~= src.subrange(start, pos));
        assert(longer.last() == src[pos]);
        if is_digit(src[pos]) {
            lemma_scan_points(src, start, pos + 1, dotted);
        } else if src[pos] == '.' && !dotted {
            lemma_scan_points(src, start, pos + 1, true);
        }
    }
}

/// A number that starts with a digit and holds a point is a decimal: the
/// lexer gives it as written, never as an error.
pub proof fn lemma_dotted_number(src: Seq<char>, pos: int)
    requires
        0 <= pos < src.len(),
        is_digit(src[pos]),
        number_scan(src, pos, false).valid,
        number_scan(src, pos, false).dotted,
    ensures
        is_decimal(src.subrange(pos, number_scan(src, pos, false).end)),
        number_class(src, pos) == TokenTypeView::Decimal(
            src.subrange(pos, number_scan(src, pos, false).end),
        ),
{
    let end = number_scan(src, pos, false).end;
    let text = src.subrange(pos, end);
    assert(src.subrange(pos, pos) =~= Seq::<char>::empty());
    lemma_scan_points(src, pos, pos, false);
    assert forall|i: int| 0 <= i < text.len() implies is_digit(#[trigger] text[i]) || text[i]
        == '.' by {
        assert(text[i] == src[pos + i]);
    }
    if text.len() < 2 {
        assert(end >= pos + 1) by {
            lemma_number_scan_bounds(src, pos + 1, false);
        }
        assert(text.drop_last() =~= Seq::<char>::empty());
        assert(text.last() == src[pos]);
        assert(points(text.drop_last()) == 0);
    }
}

} // verus!
