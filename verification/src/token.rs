//! Tokens, and the tables that turn a lexeme into one.

use vstd::prelude::*;
use vstd::string::StrSliceExecFns;
use crate::dfa::{is_digit, is_space, is_whitespace, DfaState};
use crate::tokenizer::TokenizerError;

verus! {

/// A token of the language: an identifier with its text, a number with its
/// value, a keyword, an operator or a punctuation mark.
#[derive(Debug, PartialEq, Eq)]
pub enum Token {
    Identifier(String),
    Number(u32),
    Boolean,
    True,
    False,
    Int,
    String,
    Class,
    Public,
    Static,
    Main,
    Extends,
    If,
    Else,
    While,
    New,
    This,
    Void,
    Return,
    Length,
    System,
    Out,
    Println,
    LParen,
    RParen,
    LBrace,
    RBrace,
    LBrack,
    RBrack,
    Plus,
    Multiply,
    Minus,
    Divide,
    Assignment,
    Equals,
    Not,
    NotEquals,
    GreaterThan,
    GreaterThanEquals,
    LessThan,
    LessThanEquals,
    BitwiseAnd,
    LogicalAnd,
    BitwiseOr,
    LogicalOr,
    Colon,
    Semicolon,
    Dot,
    Comma,
}

impl Clone for Token {
    fn clone(&self) -> (r: Self)
        ensures
            r == *self,
    {
        match self {
            Token::Identifier(text) => Token::Identifier(text.clone()),
            Token::Number(n) => Token::Number(*n),
            Token::Boolean => Token::Boolean,
            Token::True => Token::True,
            Token::False => Token::False,
            Token::Int => Token::Int,
            Token::String => Token::String,
            Token::Class => Token::Class,
            Token::Public => Token::Public,
            Token::Static => Token::Static,
            Token::Main => Token::Main,
            Token::Extends => Token::Extends,
            Token::If => Token::If,
            Token::Else => Token::Else,
            Token::While => Token::While,
            Token::New => Token::New,
            Token::This => Token::This,
            Token::Void => Token::Void,
            Token::Return => Token::Return,
            Token::Length => Token::Length,
            Token::System => Token::System,
            Token::Out => Token::Out,
            Token::Println => Token::Println,
            Token::LParen => Token::LParen,
            Token::RParen => Token::RParen,
            Token::LBrace => Token::LBrace,
            Token::RBrace => Token::RBrace,
            Token::LBrack => Token::LBrack,
            Token::RBrack => Token::RBrack,
            Token::Plus => Token::Plus,
            Token::Multiply => Token::Multiply,
            Token::Minus => Token::Minus,
            Token::Divide => Token::Divide,
            Token::Assignment => Token::Assignment,
            Token::Equals => Token::Equals,
            Token::Not => Token::Not,
            Token::NotEquals => Token::NotEquals,
            Token::GreaterThan => Token::GreaterThan,
            Token::GreaterThanEquals => Token::GreaterThanEquals,
            Token::LessThan => Token::LessThan,
            Token::LessThanEquals => Token::LessThanEquals,
            Token::BitwiseAnd => Token::BitwiseAnd,
            Token::LogicalAnd => Token::LogicalAnd,
            Token::BitwiseOr => Token::BitwiseOr,
            Token::LogicalOr => Token::LogicalOr,
            Token::Colon => Token::Colon,
            Token::Semicolon => Token::Semicolon,
            Token::Dot => Token::Dot,
            Token::Comma => Token::Comma,
        }
    }
}

/// `String::push` of std, taken on trust: after the call the string holds
/// the characters it held before and then `ch`.
pub assume_specification[ std::string::String::push ](s: &mut std::string::String, ch: char)
    ensures
        final(s)@ == old(s)@.push(ch),
;

/// The keyword that `lexeme` spells, if it spells one.
pub open spec fn keyword(lexeme: Seq<char>) -> Option<Token> {
    if lexeme == "boolean"@ {
        Some(Token::Boolean)
    } else if lexeme == "true"@ {
        Some(Token::True)
    } else if lexeme == "false"@ {
        Some(Token::False)
    } else if lexeme == "int"@ {
        Some(Token::Int)
    } else if lexeme == "String"@ {
        Some(Token::String)
    } else if lexeme == "class"@ {
        Some(Token::Class)
    } else if lexeme == "public"@ {
        Some(Token::Public)
    } else if lexeme == "static"@ {
        Some(Token::Static)
    } else if lexeme == "main"@ {
        Some(Token::Main)
    } else if lexeme == "extends"@ {
        Some(Token::Extends)
    } else if lexeme == "if"@ {
        Some(Token::If)
    } else if lexeme == "else"@ {
        Some(Token::Else)
    } else if lexeme == "while"@ {
        Some(Token::While)
    } else if lexeme == "new"@ {
        Some(Token::New)
    } else if lexeme == "this"@ {
        Some(Token::This)
    } else if lexeme == "void"@ {
        Some(Token::Void)
    } else if lexeme == "return"@ {
        Some(Token::Return)
    } else if lexeme == "length"@ {
        Some(Token::Length)
    } else if lexeme == "System"@ {
        Some(Token::System)
    } else if lexeme == "out"@ {
        Some(Token::Out)
    } else if lexeme == "println"@ {
        Some(Token::Println)
    } else {
        None
    }
}

/// The token of a bracket character.
pub open spec fn bracket(c: char) -> Option<Token> {
    if c == '{' {
        Some(Token::LBrace)
    } else if c == '}' {
        Some(Token::RBrace)
    } else if c == '[' {
        Some(Token::LBrack)
    } else if c == ']' {
        Some(Token::RBrack)
    } else if c == '(' {
        Some(Token::LParen)
    } else if c == ')' {
        Some(Token::RParen)
    } else {
        None
    }
}

/// The token of an arithmetic operator.
pub open spec fn numerical_operator(c: char) -> Option<Token> {
    if c == '-' {
        Some(Token::Minus)
    } else if c == '+' {
        Some(Token::Plus)
    } else if c == '/' {
        Some(Token::Divide)
    } else if c == '*' {
        Some(Token::Multiply)
    } else {
        None
    }
}

/// The value of a decimal digit.
pub open spec fn digit_value(c: char) -> nat {
    (c as nat - '0' as nat) as nat
}

/// Every character of `s` is a decimal digit.
pub open spec fn all_digits(s: Seq<char>) -> bool {
    forall|i: int| 0 <= i < s.len() ==> is_digit(#[trigger] s[i])
}

/// The number that a run of decimal digits writes.
pub open spec fn decimal(digits: Seq<char>) -> nat
    decreases digits.len(),
{
    if digits.len() == 0 {
        0
    } else {
        10 * decimal(digits.drop_last()) + digit_value(digits.last())
    }
}

/// How many characters at the front of `s` are spaces.
pub open spec fn leading_spaces(s: Seq<char>) -> nat
    decreases s.len(),
{
    if s.len() > 0 && is_space(s[0]) {
        1 + leading_spaces(s.skip(1))
    } else {
        0
    }
}

/// What a lexeme means when the automaton has stopped in `state` after it.
pub enum Meaning {
    /// An identifier with this text.
    Identifier(Seq<char>),
    /// A token that carries no text: a number, a keyword, an operator or a
    /// punctuation mark.
    Plain(Token),
    /// No 32-bit number: the digits write a larger one, or the lexeme is no
    /// run of digits.
    Overflow,
    /// No token: the state accepts nothing, or no lexeme like this one leads
    /// to it.
    Nothing,
}

/// The meaning of a run of digits.
pub open spec fn number_meaning(lexeme: Seq<char>) -> Meaning {
    if lexeme.len() > 0 && all_digits(lexeme) && decimal(lexeme) <= u32::MAX {
        Meaning::Plain(Token::Number(decimal(lexeme) as u32))
    } else {
        Meaning::Overflow
    }
}

/// The meaning of an identifier: its keyword, if it spells one.
pub open spec fn identifier_meaning(lexeme: Seq<char>) -> Meaning {
    match keyword(lexeme) {
        Some(token) => Meaning::Plain(token),
        None => Meaning::Identifier(lexeme),
    }
}

/// `Plain` of the token looked up, `Nothing` where the table has none.
pub open spec fn plain(token: Option<Token>) -> Meaning {
    match token {
        Some(token) => Meaning::Plain(token),
        None => Meaning::Nothing,
    }
}

/// The meaning of `lexeme` in `state`.
pub open spec fn meaning(state: DfaState, lexeme: Seq<char>) -> Meaning {
    match state {
        DfaState::Identifier => identifier_meaning(lexeme),
        DfaState::Zero => Meaning::Plain(Token::Number(0)),
        DfaState::Number => number_meaning(lexeme),
        DfaState::Bracket => if lexeme.len() > 0 {
            plain(bracket(lexeme[0]))
        } else {
            Meaning::Nothing
        },
        DfaState::Plus | DfaState::Minus | DfaState::Multiply | DfaState::Div => if lexeme.len()
            > 0 {
            plain(numerical_operator(lexeme[0]))
        } else {
            Meaning::Nothing
        },
        DfaState::Assignment => Meaning::Plain(Token::Assignment),
        DfaState::Equals => Meaning::Plain(Token::Equals),
        DfaState::LessThan => Meaning::Plain(Token::LessThan),
        DfaState::LessThanEquals => Meaning::Plain(Token::LessThanEquals),
        DfaState::GreaterThan => Meaning::Plain(Token::GreaterThan),
        DfaState::GreaterThanEquals => Meaning::Plain(Token::GreaterThanEquals),
        DfaState::Not => Meaning::Plain(Token::Not),
        DfaState::NotEquals => Meaning::Plain(Token::NotEquals),
        DfaState::BitwiseAnd => Meaning::Plain(Token::BitwiseAnd),
        DfaState::LogicalAnd => Meaning::Plain(Token::LogicalAnd),
        DfaState::BitwiseOr => Meaning::Plain(Token::BitwiseOr),
        DfaState::LogicalOr => Meaning::Plain(Token::LogicalOr),
        DfaState::Dot => Meaning::Plain(Token::Dot),
        DfaState::Comma => Meaning::Plain(Token::Comma),
        DfaState::Semicolon => Meaning::Plain(Token::Semicolon),
        DfaState::Colon => Meaning::Plain(Token::Colon),
        DfaState::Start | DfaState::Exit | DfaState::Error => Meaning::Nothing,
    }
}

impl Meaning {
    /// `r` is what this meaning asks for: the token, or the error that
    /// stands for a meaning without one.
    pub open spec fn is_met_by(self, r: Result<Token, TokenizerError>) -> bool {
        match self {
            Meaning::Identifier(text) => r matches Ok(Token::Identifier(s)) && s@ == text,
            Meaning::Plain(token) => r matches Ok(t) && t == token,
            Meaning::Overflow => r matches Err(TokenizerError::IntParseError),
            Meaning::Nothing => r matches Err(TokenizerError::Unknown),
        }
    }
}

/// Whether `lexeme` and `word` hold the same characters.
fn same_text(lexeme: &Vec<char>, word: &str) -> (r: bool)
    ensures
        r == (lexeme@ == word@),
{
    let n: usize = word.unicode_len();
    if lexeme.len() != n {
        return false;
    }
    let mut i: usize = 0;
    while i < n
        invariant
            i <= n,
            n == lexeme@.len(),
            n == word@.len(),
            forall|j: int| 0 <= j < i ==> lexeme@[j] == word@[j],
        decreases n - i,
    {
        if lexeme[i] != word.get_char(i) {
            return false;
        }
        i += 1;
    }
    assert(lexeme@ =~= word@);
    true
}

/// Looks `lexeme` up among the keywords.
pub fn lookup_keyword(lexeme: &Vec<char>) -> (r: Option<Token>)
    ensures
        r == keyword(lexeme@),
{
    if same_text(lexeme, "boolean") {
        Some(Token::Boolean)
    } else if same_text(lexeme, "true") {
        Some(Token::True)
    } else if same_text(lexeme, "false") {
        Some(Token::False)
    } else if same_text(lexeme, "int") {
        Some(Token::Int)
    } else if same_text(lexeme, "String") {
        Some(Token::String)
    } else if same_text(lexeme, "class") {
        Some(Token::Class)
    } else if same_text(lexeme, "public") {
        Some(Token::Public)
    } else if same_text(lexeme, "static") {
        Some(Token::Static)
    } else if same_text(lexeme, "main") {
        Some(Token::Main)
    } else if same_text(lexeme, "extends") {
        Some(Token::Extends)
    } else if same_text(lexeme, "if") {
        Some(Token::If)
    } else if same_text(lexeme, "else") {
        Some(Token::Else)
    } else if same_text(lexeme, "while") {
        Some(Token::While)
    } else if same_text(lexeme, "new") {
        Some(Token::New)
    } else if same_text(lexeme, "this") {
        Some(Token::This)
    } else if same_text(lexeme, "void") {
        Some(Token::Void)
    } else if same_text(lexeme, "return") {
        Some(Token::Return)
    } else if same_text(lexeme, "length") {
        Some(Token::Length)
    } else if same_text(lexeme, "System") {
        Some(Token::System)
    } else if same_text(lexeme, "out") {
        Some(Token::Out)
    } else if same_text(lexeme, "println") {
        Some(Token::Println)
    } else {
        None
    }
}

/// Looks `c` up among the brackets.
pub fn lookup_bracket(c: char) -> (r: Option<Token>)
    ensures
        r == bracket(c),
{
    match c {
        '{' => Some(Token::LBrace),
        '}' => Some(Token::RBrace),
        '[' => Some(Token::LBrack),
        ']' => Some(Token::RBrack),
        '(' => Some(Token::LParen),
        ')' => Some(Token::RParen),
        _ => None,
    }
}

/// Looks `c` up among the arithmetic operators.
pub fn lookup_numerical_operator(c: char) -> (r: Option<Token>)
    ensures
        r == numerical_operator(c),
{
    match c {
        '-' => Some(Token::Minus),
        '+' => Some(Token::Plus),
        '/' => Some(Token::Divide),
        '*' => Some(Token::Multiply),
        _ => None,
    }
}

/// A string of the characters of `chars`.
pub fn text_of(chars: &Vec<char>) -> (r: String)
    ensures
        r@ == chars@,
{
    let mut text = String::new();
    let mut i: usize = 0;
    while i < chars.len()
        invariant
            i <= chars.len(),
            text@ == chars@.take(i as int),
        decreases chars.len() - i,
    {
        text.push(chars[i]);
        assert(chars@.take(i + 1) =~= chars@.take(i as int).push(chars@[i as int]));
        i += 1;
    }
    assert(chars@.take(chars.len() as int) =~= chars@);
    text
}

/// The token of an identifier: its keyword, or `Identifier` with its text.
pub fn tokenize_identifier(lexeme: &Vec<char>) -> (r: Token)
    ensures
        identifier_meaning(lexeme@).is_met_by(Ok(r)),
{
    match lookup_keyword(lexeme) {
        Some(token) => token,
        None => Token::Identifier(text_of(lexeme)),
    }
}

/// The token of a bracket, or `Unknown` if `c` is none.
pub fn tokenize_bracket(c: char) -> (r: Result<Token, TokenizerError>)
    ensures
        plain(bracket(c)).is_met_by(r),
{
    match lookup_bracket(c) {
        Some(token) => Ok(token),
        None => Err(TokenizerError::Unknown),
    }
}

/// The token of an arithmetic operator, or `Unknown` if `c` is none.
pub fn tokenize_num_operator(c: char) -> (r: Result<Token, TokenizerError>)
    ensures
        plain(numerical_operator(c)).is_met_by(r),
{
    match lookup_numerical_operator(c) {
        Some(token) => Ok(token),
        None => Err(TokenizerError::Unknown),
    }
}

/// A longer run of digits writes no smaller number than its beginning.
pub proof fn lemma_decimal_grows(digits: Seq<char>, k: int)
    requires
        0 <= k <= digits.len(),
    ensures
        decimal(digits.take(k)) <= decimal(digits),
    decreases digits.len(),
{
    if k == digits.len() {
        assert(digits.take(k) =~= digits);
    } else {
        lemma_decimal_grows(digits.drop_last(), k);
        assert(digits.drop_last().take(k) =~= digits.take(k));
    }
}

/// The token of a run of digits: `Number` with the value that the digits
/// write, or `IntParseError` if that value does not fit into 32 bits or the
/// lexeme is no run of digits.
pub fn tokenize_number(lexeme: &Vec<char>) -> (r: Result<Token, TokenizerError>)
    ensures
        number_meaning(lexeme@).is_met_by(r),
{
    if lexeme.len() == 0 {
        return Err(TokenizerError::IntParseError);
    }
    let mut value: u32 = 0;
    let mut i: usize = 0;
    while i < lexeme.len()
        invariant
            i <= lexeme.len(),
            all_digits(lexeme@.take(i as int)),
            value == decimal(lexeme@.take(i as int)),
        decreases lexeme.len() - i,
    {
        let c: char = lexeme[i];
        if c < '0' || c > '9' {
            return Err(TokenizerError::IntParseError);
        }
        let digit: u32 = c as u32 - '0' as u32;
        proof {
            assert(lexeme@.take(i + 1).drop_last() =~= lexeme@.take(i as int));
            assert(lexeme@.take(i + 1).last() == c);
            assert(decimal(lexeme@.take(i + 1)) == 10 * value + digit);
            assert forall|j: int| 0 <= j < i + 1 implies is_digit(
                #[trigger] lexeme@.take(i + 1)[j],
            ) by {
                if j < i {
                    assert(lexeme@.take(i + 1)[j] == lexeme@.take(i as int)[j]);
                }
            }
        }
        if value > (u32::MAX - digit) / 10 {
            proof {
                lemma_decimal_grows(lexeme@, i + 1);
            }
            return Err(TokenizerError::IntParseError);
        }
        value = value * 10 + digit;
        i += 1;
    }
    assert(lexeme@.take(lexeme.len() as int) =~= lexeme@);
    Ok(Token::Number(value))
}

/// The lexeme without the spaces at its front.
pub fn trim(raw: &Vec<char>) -> (r: Vec<char>)
    ensures
        r@ == raw@.skip(leading_spaces(raw@) as int),
{
    let mut start: usize = 0;
    assert(raw@.skip(0) =~= raw@);
    while start < raw.len() && is_whitespace(raw[start])
        invariant
            start <= raw.len(),
            leading_spaces(raw@) == start + leading_spaces(raw@.skip(start as int)),
        decreases raw.len() - start,
    {
        assert(raw@.skip(start as int).skip(1) =~= raw@.skip(start + 1));
        start += 1;
    }
    let mut lexeme: Vec<char> = Vec::new();
    let mut i: usize = start;
    while i < raw.len()
        invariant
            start <= i <= raw.len(),
            lexeme@ == raw@.subrange(start as int, i as int),
        decreases raw.len() - i,
    {
        lexeme.push(raw[i]);
        assert(raw@.subrange(start as int, i + 1) =~= raw@.subrange(start as int, i as int).push(
            raw@[i as int],
        ));
        i += 1;
    }
    assert(raw@.subrange(start as int, raw.len() as int) =~= raw@.skip(start as int));
    lexeme
}

/// The token that `lexeme` is when the automaton has stopped in `state`
/// after it. Fails with `IntParseError` on a number too large for 32 bits,
/// and with `Unknown` where the state accepts nothing or the tables do not
/// hold the lexeme.
pub fn tokenize(state: DfaState, lexeme: &Vec<char>) -> (r: Result<Token, TokenizerError>)
    ensures
        meaning(state, lexeme@).is_met_by(r),
{
    match state {
        DfaState::Identifier => Ok(tokenize_identifier(lexeme)),
        DfaState::Zero => Ok(Token::Number(0)),
        DfaState::Number => tokenize_number(lexeme),
        DfaState::Bracket => if lexeme.len() > 0 {
            tokenize_bracket(lexeme[0])
        } else {
            Err(TokenizerError::Unknown)
        },
        DfaState::Plus | DfaState::Minus | DfaState::Multiply | DfaState::Div => if lexeme.len()
            > 0 {
            tokenize_num_operator(lexeme[0])
        } else {
            Err(TokenizerError::Unknown)
        },
        DfaState::Assignment => Ok(Token::Assignment),
        DfaState::Equals => Ok(Token::Equals),
        DfaState::LessThan => Ok(Token::LessThan),
        DfaState::LessThanEquals => Ok(Token::LessThanEquals),
        DfaState::GreaterThan => Ok(Token::GreaterThan),
        DfaState::GreaterThanEquals => Ok(Token::GreaterThanEquals),
        DfaState::Not => Ok(Token::Not),
        DfaState::NotEquals => Ok(Token::NotEquals),
        DfaState::BitwiseAnd => Ok(Token::BitwiseAnd),
        DfaState::LogicalAnd => Ok(Token::LogicalAnd),
        DfaState::BitwiseOr => Ok(Token::BitwiseOr),
        DfaState::LogicalOr => Ok(Token::LogicalOr),
        DfaState::Dot => Ok(Token::Dot),
        DfaState::Comma => Ok(Token::Comma),
        DfaState::Semicolon => Ok(Token::Semicolon),
        DfaState::Colon => Ok(Token::Colon),
        DfaState::Start | DfaState::Exit | DfaState::Error => Err(TokenizerError::Unknown),
    }
}

} // verus!
