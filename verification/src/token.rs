//! Tokens: the classified, positioned units that the lexer produces.

use crate::errors::LexError;
use crate::text::{chars_of, same_text};
use crate::value::{Literal, LiteralView};
use vstd::prelude::*;

verus! {

/// A binary operator.
#[derive(Debug, PartialEq, Eq, Clone, Copy, Structural)]
pub enum Operator {
    Sub,
    Add,
    Mul,
    Div,
    Mod,
    Greater,
    Less,
    GreaterEqual,
    LessEqual,
    Equal,
    NotEqual,
    Or,
    And,
}

impl Operator {
    /// How tightly the operator binds: `or` loosest, then `and`, the
    /// equalities, the comparisons, the additive and the multiplicative
    /// operators.
    pub open spec fn rank(self) -> u8 {
        match self {
            Operator::Or => 1,
            Operator::And => 2,
            Operator::Equal | Operator::NotEqual => 3,
            Operator::Greater | Operator::Less | Operator::GreaterEqual | Operator::LessEqual => 4,
            Operator::Add | Operator::Sub => 5,
            Operator::Mul | Operator::Div | Operator::Mod => 6,
        }
    }

    /// How tightly the operator binds, from 1 for `or` to 6 for `*`, `/` and
    /// `%`.
    pub fn precedence(&self) -> (p: u8)
        ensures
            p == self.rank(),
    {
        match self {
            Operator::Or => 1,
            Operator::And => 2,
            Operator::Equal | Operator::NotEqual => 3,
            Operator::Greater | Operator::Less | Operator::GreaterEqual | Operator::LessEqual => 4,
            Operator::Add | Operator::Sub => 5,
            Operator::Mul | Operator::Div | Operator::Mod => 6,
        }
    }

    /// The operator that a text spells, if any.
    pub open spec fn spelled(text: Seq<char>) -> Option<Operator> {
        if text == "+"@ {
            Some(Operator::Add)
        } else if text == "-"@ {
            Some(Operator::Sub)
        } else if text == "*"@ {
            Some(Operator::Mul)
        } else if text == "/"@ {
            Some(Operator::Div)
        } else if text == "%"@ {
            Some(Operator::Mod)
        } else if text == ">"@ {
            Some(Operator::Greater)
        } else if text == "<"@ {
            Some(Operator::Less)
        } else if text == ">="@ {
            Some(Operator::GreaterEqual)
        } else if text == "<="@ {
            Some(Operator::LessEqual)
        } else if text == "=="@ {
            Some(Operator::Equal)
        } else if text == "!="@ {
            Some(Operator::NotEqual)
        } else if text == "or"@ {
            Some(Operator::Or)
        } else if text == "and"@ {
            Some(Operator::And)
        } else {
            None
        }
    }

    /// Reads an operator from its spelling.
    pub fn from_text(text: &str) -> (r: Option<Operator>)
        ensures
            r == Operator::spelled(text@),
    {
        if same_text(text, "+") {
            Some(Operator::Add)
        } else if same_text(text, "-") {
            Some(Operator::Sub)
        } else if same_text(text, "*") {
            Some(Operator::Mul)
        } else if same_text(text, "/") {
            Some(Operator::Div)
        } else if same_text(text, "%") {
            Some(Operator::Mod)
        } else if same_text(text, ">") {
            Some(Operator::Greater)
        } else if same_text(text, "<") {
            Some(Operator::Less)
        } else if same_text(text, ">=") {
            Some(Operator::GreaterEqual)
        } else if same_text(text, "<=") {
            Some(Operator::LessEqual)
        } else if same_text(text, "==") {
            Some(Operator::Equal)
        } else if same_text(text, "!=") {
            Some(Operator::NotEqual)
        } else if same_text(text, "or") {
            Some(Operator::Or)
        } else if same_text(text, "and") {
            Some(Operator::And)
        } else {
            None
        }
    }
}

/// A unary operator.
#[derive(Debug, PartialEq, Eq, Clone, Copy, Structural)]
pub enum Unary {
    Neg,
    Not,
}

/// A reserved word that starts a statement.
#[derive(Debug, PartialEq, Eq, Clone, Copy, Structural)]
pub enum Keyword {
    Print,
    Let,
    While,
}

impl Keyword {
    /// The keyword that a word spells, if any.
    pub open spec fn spelled(text: Seq<char>) -> Option<Keyword> {
        if text == "print"@ {
            Some(Keyword::Print)
        } else if text == "let"@ {
            Some(Keyword::Let)
        } else if text == "while"@ {
            Some(Keyword::While)
        } else {
            None
        }
    }

    /// Reads a keyword from its spelling.
    pub fn new_keyword(text: &str) -> (r: Option<Self>)
        ensures
            r == Keyword::spelled(text@),
    {
        if same_text(text, "print") {
            Some(Keyword::Print)
        } else if same_text(text, "let") {
            Some(Keyword::Let)
        } else if same_text(text, "while") {
            Some(Keyword::While)
        } else {
            None
        }
    }
}

/// The kind of a token, with what it carries.
#[derive(Debug, PartialEq)]
pub enum TokenType {
    /// A number, a string or a boolean written in the source.
    Literal(Literal),
    /// A number written with a decimal point, kept as written: `is_decimal`
    /// holds of a text that the lexer puts here.
    Decimal(String),
    Operator(Operator),
    Unary(Unary),
    Error(LexError),
    Keyword(Keyword),
    /// An identifier with its name.
    Ident(String),
    Lparen,
    Rparen,
    Lbrace,
    Rbrace,
    /// `=`
    Assign,
    /// A semicolon or a line end.
    StmtEnd,
    Eof,
}

/// The mathematical model of a [`TokenType`].
pub enum TokenTypeView {
    Literal(LiteralView),
    Decimal(Seq<char>),
    Operator(Operator),
    Unary(Unary),
    Error(LexError),
    Keyword(Keyword),
    Ident(Seq<char>),
    Lparen,
    Rparen,
    Lbrace,
    Rbrace,
    Assign,
    StmtEnd,
    Eof,
}

impl View for TokenType {
    type V = TokenTypeView;

    open spec fn view(&self) -> TokenTypeView {
        match self {
            TokenType::Literal(l) => TokenTypeView::Literal(l@),
            TokenType::Decimal(text) => TokenTypeView::Decimal(text@),
            TokenType::Operator(op) => TokenTypeView::Operator(*op),
            TokenType::Unary(op) => TokenTypeView::Unary(*op),
            TokenType::Error(e) => TokenTypeView::Error(*e),
            TokenType::Keyword(k) => TokenTypeView::Keyword(*k),
            TokenType::Ident(name) => TokenTypeView::Ident(name@),
            TokenType::Lparen => TokenTypeView::Lparen,
            TokenType::Rparen => TokenTypeView::Rparen,
            TokenType::Lbrace => TokenTypeView::Lbrace,
            TokenType::Rbrace => TokenTypeView::Rbrace,
            TokenType::Assign => TokenTypeView::Assign,
            TokenType::StmtEnd => TokenTypeView::StmtEnd,
            TokenType::Eof => TokenTypeView::Eof,
        }
    }
}

impl Clone for TokenType {
    fn clone(&self) -> (r: Self)
        ensures
            r@ == self@,
    {
        match self {
            TokenType::Literal(l) => TokenType::Literal(l.clone()),
            TokenType::Decimal(text) => TokenType::Decimal(text.clone()),
            TokenType::Operator(op) => TokenType::Operator(*op),
            TokenType::Unary(op) => TokenType::Unary(*op),
            TokenType::Error(e) => TokenType::Error(*e),
            TokenType::Keyword(k) => TokenType::Keyword(*k),
            TokenType::Ident(name) => TokenType::Ident(name.clone()),
            TokenType::Lparen => TokenType::Lparen,
            TokenType::Rparen => TokenType::Rparen,
            TokenType::Lbrace => TokenType::Lbrace,
            TokenType::Rbrace => TokenType::Rbrace,
            TokenType::Assign => TokenType::Assign,
            TokenType::StmtEnd => TokenType::StmtEnd,
            TokenType::Eof => TokenType::Eof,
        }
    }
}

/// Whether a character is one of the ten decimal digits.
pub open spec fn is_digit(c: char) -> bool {
    '0' <= c && c <= '9'
}

/// The number that a run of decimal digits writes.
pub open spec fn digits_value(digits: Seq<char>) -> int
    decreases digits.len(),
{
    if digits.len() == 0 {
        0
    } else {
        digits_value(digits.drop_last()) * 10 + (digits.last() as int - '0' as int)
    }
}

/// The 32-bit number that a text writes: the text is one or more decimal
/// digits, and their value is at most `i32::MAX`.
pub open spec fn number_written(text: Seq<char>) -> Option<i32> {
    if text.len() > 0 && (forall|i: int| 0 <= i < text.len() ==> is_digit(#[trigger] text[i]))
        && digits_value(text) <= i32::MAX {
        Some(digits_value(text) as i32)
    } else {
        None
    }
}

proof fn lemma_digits_value_grows(digits: Seq<char>, n: int)
    requires
        0 <= n <= digits.len(),
        forall|i: int| 0 <= i < digits.len() ==> is_digit(#[trigger] digits[i]),
    ensures
        0 <= digits_value(digits.take(n)) <= digits_value(digits),
    decreases digits.len() - n,
{
    if n == digits.len() {
        assert(digits.take(n) =~= digits);
        lemma_digits_value_bounds(digits);
    } else {
        lemma_digits_value_grows(digits, n + 1);
        let longer = digits.take(n + 1);
        assert(longer.drop_last() =~= digits.take(n));
        assert(is_digit(digits[n]));
        assert(longer.last() == digits[n]);
        lemma_digits_value_bounds(digits.take(n));
    }
}

proof fn lemma_digits_value_bounds(digits: Seq<char>)
    requires
        forall|i: int| 0 <= i < digits.len() ==> is_digit(#[trigger] digits[i]),
    ensures
        0 <= digits_value(digits),
    decreases digits.len(),
{
    if digits.len() > 0 {
        lemma_digits_value_bounds(digits.drop_last());
        assert(is_digit(digits[digits.len() - 1]));
    }
}

/// How many points a text holds.
pub open spec fn points(text: Seq<char>) -> nat
    decreases text.len(),
{
    if text.len() == 0 {
        0
    } else {
        points(text.drop_last()) + if text.last() == '.' {
            1nat
        } else {
            0nat
        }
    }
}

/// Whether a text writes a number with a decimal point: digits with exactly
/// one point among, before or behind them, and one digit at least.
pub open spec fn is_decimal(text: Seq<char>) -> bool {
    &&& text.len() >= 2
    &&& points(text) == 1
    &&& forall|i: int| 0 <= i < text.len() ==> is_digit(#[trigger] text[i]) || text[i] == '.'
}

/// Says whether a text writes a number with a decimal point.
pub fn read_decimal(text: &Vec<char>) -> (r: bool)
    ensures
        r == is_decimal(text@),
{
    let mut count: usize = 0;
    let mut i: usize = 0;
    assert(text@.take(0) =~= Seq::<char>::empty());
    while i < text.len()
        invariant
            i <= text.len(),
            count == points(text@.take(i as int)),
            count <= i,
            forall|j: int| 0 <= j < i ==> is_digit(#[trigger] text@[j]) || text@[j] == '.',
        decreases text.len() - i,
    {
        let c = text[i];
        proof {
            assert(text@.take(i + 1).drop_last() =~= text@.take(i as int));
        }
        if c == '.' {
            count = count + 1;
        } else if !('0' <= c && c <= '9') {
            return false;
        }
        i = i + 1;
    }
    proof {
        assert(text@.take(text.len() as int) =~= text@);
    }
    count == 1 && text.len() >= 2
}

/// Reads a 32-bit number from its decimal digits.
pub fn read_number(text: &Vec<char>) -> (r: Option<i32>)
    ensures
        r == number_written(text@),
{
    if text.len() == 0 {
        return None;
    }
    let mut value: i64 = 0;
    let mut i: usize = 0;
    while i < text.len()
        invariant
            i <= text.len(),
            forall|j: int| 0 <= j < i ==> is_digit(#[trigger] text@[j]),
            value == digits_value(text@.take(i as int)),
            0 <= value <= i32::MAX,
        decreases text.len() - i,
    {
        let c = text[i];
        if !('0' <= c && c <= '9') {
            return None;
        }
        let d: i64 = (c as u32 - '0' as u32) as i64;
        proof {
            assert(text@.take(i + 1).drop_last() =~= text@.take(i as int));
        }
        value = value * 10 + d;
        i = i + 1;
        if value > 0x7fff_ffff {
            // The digits read so far are already too large, and more digits
            // cannot make the number smaller.
            let ghost rest = i as int;
            let mut j: usize = i;
            while j < text.len()
                invariant
                    i <= j <= text.len(),
                    forall|k: int| 0 <= k < j ==> is_digit(#[trigger] text@[k]),
                decreases text.len() - j,
            {
                let c = text[j];
                if !('0' <= c && c <= '9') {
                    return None;
                }
                j = j + 1;
            }
            proof {
                lemma_digits_value_grows(text@, rest);
            }
            return None;
        }
    }
    proof {
        assert(text@.take(text.len() as int) =~= text@);
    }
    Some(value as i32)
}

impl TokenTypeView {
    /// How an error message names the kind of token.
    pub open spec fn description(self) -> Seq<char> {
        match self {
            TokenTypeView::Literal(_) => "a literal"@,
            TokenTypeView::Decimal(_) => "a literal"@,
            TokenTypeView::Operator(_) => "an operator"@,
            TokenTypeView::Unary(_) => "a unary operator"@,
            TokenTypeView::Error(_) => "error"@,
            TokenTypeView::Keyword(_) => "a keyword"@,
            TokenTypeView::Ident(_) => "an identifier"@,
            TokenTypeView::Lparen => "("@,
            TokenTypeView::Rparen => ")"@,
            TokenTypeView::Lbrace => "{"@,
            TokenTypeView::Rbrace => "}"@,
            TokenTypeView::Assign => "="@,
            TokenTypeView::StmtEnd => "the end of statement"@,
            TokenTypeView::Eof => "the end of file"@,
        }
    }

    /// The token kind of a text with a decimal point: the text itself where
    /// it writes a number, else an error.
    pub open spec fn decimal(text: Seq<char>) -> TokenTypeView {
        if is_decimal(text) {
            TokenTypeView::Decimal(text)
        } else {
            TokenTypeView::Error(LexError::InvalidTokenError)
        }
    }

    /// The token kind of a run of digits: the number they write, or an error
    /// where they write none that fits.
    pub open spec fn number(text: Seq<char>) -> TokenTypeView {
        match number_written(text) {
            Some(n) => TokenTypeView::Literal(LiteralView::Number(n)),
            None => TokenTypeView::Error(LexError::InvalidTokenError),
        }
    }
}

impl TokenType {
    /// The token of an integer literal. A text that is no run of digits, or
    /// whose value does not fit in 32 bits, gives an error token.
    pub fn new_number_literal(text: &str) -> (r: TokenType)
        ensures
            r@ == TokenTypeView::number(text@),
    {
        let chars = chars_of(text);
        match read_number(&chars) {
            Some(n) => TokenType::Literal(Literal::Number(n)),
            None => TokenType::Error(LexError::InvalidTokenError),
        }
    }

    /// The token of a literal written with a decimal point. A text that is
    /// not digits with exactly one point gives an error token.
    pub fn new_float_literal(text: &str) -> (r: TokenType)
        ensures
            r@ == TokenTypeView::decimal(text@),
    {
        let chars = chars_of(text);
        if read_decimal(&chars) {
            TokenType::Decimal(String::from_str(text))
        } else {
            TokenType::Error(LexError::InvalidTokenError)
        }
    }

    /// The token of a string literal with the given content.
    pub fn new_string_literal(text: &str) -> (r: TokenType)
        ensures
            r@ == TokenTypeView::Literal(LiteralView::String(text@)),
    {
        TokenType::Literal(Literal::String(String::from_str(text)))
    }

    /// The token of a binary operator, from its spelling.
    pub fn new_operator(text: &str) -> (r: TokenType)
        requires
            Operator::spelled(text@).is_some(),
        ensures
            r@ == TokenTypeView::Operator(Operator::spelled(text@).unwrap()),
    {
        match Operator::from_text(text) {
            Some(op) => TokenType::Operator(op),
            None => TokenType::Eof,
        }
    }

    /// The token of a unary operator: `-` negates, `!` inverts.
    pub fn new_unary(text: char) -> (r: TokenType)
        requires
            text == '-' || text == '!',
        ensures
            r@ == TokenTypeView::Unary(
                if text == '-' {
                    Unary::Neg
                } else {
                    Unary::Not
                },
            ),
    {
        if text == '-' {
            TokenType::Unary(Unary::Neg)
        } else {
            TokenType::Unary(Unary::Not)
        }
    }

    /// How an error message names the kind of token.
    pub fn to_string(&self) -> (r: &'static str)
        ensures
            r@ == self@.description(),
    {
        match self {
            TokenType::Literal(_) => "a literal",
            TokenType::Decimal(_) => "a literal",
            TokenType::Operator(_) => "an operator",
            TokenType::Unary(_) => "a unary operator",
            TokenType::Error(_) => "error",
            TokenType::Keyword(_) => "a keyword",
            TokenType::Ident(_) => "an identifier",
            TokenType::Lparen => "(",
            TokenType::Rparen => ")",
            TokenType::Lbrace => "{",
            TokenType::Rbrace => "}",
            TokenType::Assign => "=",
            TokenType::StmtEnd => "the end of statement",
            TokenType::Eof => "the end of file",
        }
    }
}

/// A token: its kind, and where it starts.
#[derive(Debug, PartialEq)]
pub struct Token {
    pub class: TokenType,
    /// The column of the token's first character, counted from 0.
    pub start: u32,
    /// The line of the token's first character, counted from 1.
    pub line: u32,
}

/// The mathematical model of a [`Token`].
pub struct TokenView {
    pub class: TokenTypeView,
    pub start: u32,
    pub line: u32,
}

impl View for Token {
    type V = TokenView;

    open spec fn view(&self) -> TokenView {
        TokenView { class: self.class@, start: self.start, line: self.line }
    }
}

impl Clone for Token {
    fn clone(&self) -> (r: Self)
        ensures
            r@ == self@,
    {
        Token { class: self.class.clone(), start: self.start, line: self.line }
    }
}

/// The models of a run of tokens.
pub open spec fn token_views(tokens: Seq<Token>) -> Seq<TokenView> {
    Seq::new(tokens.len(), |i: int| tokens[i]@)
}

/// The models of a run with one more token are the models of the run with
/// one more model.
pub proof fn lemma_token_views_push(tokens: Seq<Token>, token: Token)
    ensures
        token_views(tokens.push(token)) == token_views(tokens).push(token@),
{
    assert(token_views(tokens.push(token)) =~= token_views(tokens).push(token@));
}

} // verus!
