//! The transition function of the tokenizer's automaton.
//!
//! A state is a lexical category. `Start` is the state before the first
//! character of a token, `Exit` says that the character just offered does not
//! extend the token, and every other state but `Error` is accepting.

use vstd::prelude::*;

verus! {

/// A state of the automaton.
#[derive(Clone, Copy, PartialEq, Eq, Structural, Debug)]
pub enum DfaState {
    Start,
    Identifier,
    Zero,
    Number,
    Bracket,
    Plus,
    Minus,
    Multiply,
    Div,
    Assignment,
    Equals,
    LessThan,
    LessThanEquals,
    GreaterThan,
    GreaterThanEquals,
    Not,
    NotEquals,
    BitwiseAnd,
    LogicalAnd,
    BitwiseOr,
    LogicalOr,
    Dot,
    Comma,
    Semicolon,
    Colon,
    Exit,
    Error,
}

/// An ASCII letter.
pub open spec fn is_letter(c: char) -> bool {
    ('a' <= c && c <= 'z') || ('A' <= c && c <= 'Z')
}

/// A decimal digit.
pub open spec fn is_digit(c: char) -> bool {
    '0' <= c && c <= '9'
}

/// A character that separates tokens: tab, space or line feed.
pub open spec fn is_space(c: char) -> bool {
    c == '\t' || c == ' ' || c == '\n'
}

/// One of the six bracket characters.
pub open spec fn is_bracket(c: char) -> bool {
    c == '{' || c == '}' || c == '[' || c == ']' || c == '(' || c == ')'
}

/// A character that may follow the first character of an identifier.
pub open spec fn is_identifier_part(c: char) -> bool {
    is_letter(c) || is_digit(c) || c == '_'
}

/// The state that a one-character operator or punctuation mark leads to from
/// `Start`, or `Exit` when `c` is none.
pub open spec fn mark_state(c: char) -> DfaState {
    if c == '-' {
        DfaState::Minus
    } else if c == '*' {
        DfaState::Multiply
    } else if c == '/' {
        DfaState::Div
    } else if c == '+' {
        DfaState::Plus
    } else if c == '=' {
        DfaState::Assignment
    } else if c == '<' {
        DfaState::LessThan
    } else if c == '>' {
        DfaState::GreaterThan
    } else if c == '!' {
        DfaState::Not
    } else if c == '&' {
        DfaState::BitwiseAnd
    } else if c == '|' {
        DfaState::BitwiseOr
    } else if c == '.' {
        DfaState::Dot
    } else if c == ',' {
        DfaState::Comma
    } else if c == ':' {
        DfaState::Colon
    } else if c == ';' {
        DfaState::Semicolon
    } else {
        DfaState::Exit
    }
}

/// The state that the first character of a token leads to.
pub open spec fn first_state(c: char) -> DfaState {
    if is_letter(c) {
        DfaState::Identifier
    } else if is_space(c) {
        DfaState::Start
    } else if c == '0' {
        DfaState::Zero
    } else if is_digit(c) {
        DfaState::Number
    } else if is_bracket(c) {
        DfaState::Bracket
    } else {
        mark_state(c)
    }
}

/// `to` if `c` is `expected`, else `Exit`.
pub open spec fn promote(c: char, expected: char, to: DfaState) -> DfaState {
    if c == expected {
        to
    } else {
        DfaState::Exit
    }
}

/// Whether `c` separates tokens.
pub fn is_whitespace(c: char) -> (r: bool)
    ensures
        r == is_space(c),
{
    c == '\t' || c == ' ' || c == '\n'
}

impl DfaState {
    /// A state whose reach denotes a complete token.
    pub open spec fn accepting(self) -> bool {
        self != DfaState::Start && self != DfaState::Exit && self != DfaState::Error
    }

    /// The transition function: the state after `self` has read `c`.
    pub open spec fn step(self, c: char) -> DfaState {
        match self {
            DfaState::Start => first_state(c),
            DfaState::Identifier => if is_identifier_part(c) {
                DfaState::Identifier
            } else {
                DfaState::Exit
            },
            DfaState::Number => if is_digit(c) {
                DfaState::Number
            } else {
                DfaState::Exit
            },
            DfaState::Assignment => promote(c, '=', DfaState::Equals),
            DfaState::LessThan => promote(c, '=', DfaState::LessThanEquals),
            DfaState::GreaterThan => promote(c, '=', DfaState::GreaterThanEquals),
            DfaState::Not => promote(c, '=', DfaState::NotEquals),
            DfaState::BitwiseAnd => promote(c, '&', DfaState::LogicalAnd),
            DfaState::BitwiseOr => promote(c, '|', DfaState::LogicalOr),
            _ => DfaState::Exit,
        }
    }

    /// Whether `self` is an accepting state.
    pub fn is_accepting(self) -> (r: bool)
        ensures
            r == self.accepting(),
    {
        match self {
            DfaState::Start | DfaState::Exit | DfaState::Error => false,
            _ => true,
        }
    }

    /// The state after `self` has read `next_char`. Total: a character that
    /// does not extend the token leads to `Exit`, and so does every character
    /// from `Exit` and from `Error`.
    pub fn next_state(self, next_char: char) -> (r: DfaState)
        ensures
            r == self.step(next_char),
    {
        match self {
            DfaState::Start => self.start(next_char),
            DfaState::Identifier => self.identifier(next_char),
            DfaState::Zero => self.exit(),
            DfaState::Number => self.number(next_char),
            DfaState::Bracket => self.exit(),
            DfaState::Plus => self.exit(),
            DfaState::Minus => self.exit(),
            DfaState::Multiply => self.exit(),
            DfaState::Div => self.exit(),
            DfaState::Assignment => self.assignment(next_char),
            DfaState::Equals => self.exit(),
            DfaState::LessThan => self.less(next_char),
            DfaState::LessThanEquals => self.exit(),
            DfaState::GreaterThan => self.greater(next_char),
            DfaState::GreaterThanEquals => self.exit(),
            DfaState::Not => self.not(next_char),
            DfaState::NotEquals => self.exit(),
            DfaState::BitwiseAnd => self.bitwise_and(next_char),
            DfaState::BitwiseOr => self.bitwise_or(next_char),
            DfaState::LogicalAnd => self.exit(),
            DfaState::LogicalOr => self.exit(),
            DfaState::Colon => self.exit(),
            DfaState::Semicolon => self.exit(),
            DfaState::Comma => self.exit(),
            DfaState::Dot => self.exit(),
            DfaState::Error => self.exit(),
            DfaState::Exit => self.exit(),
        }
    }

    fn start(self, next_char: char) -> (r: DfaState)
        ensures
            r == first_state(next_char),
    {
        match next_char {
            'A'..='Z' | 'a'..='z' => DfaState::Identifier,
            '\t' | ' ' | '\n' => DfaState::Start,
            '0' => DfaState::Zero,
            '1'..='9' => DfaState::Number,
            '{' | '}' | '[' | ']' | '(' | ')' => DfaState::Bracket,
            '-' => DfaState::Minus,
            '*' => DfaState::Multiply,
            '/' => DfaState::Div,
            '+' => DfaState::Plus,
            '=' => DfaState::Assignment,
            '<' => DfaState::LessThan,
            '>' => DfaState::GreaterThan,
            '!' => DfaState::Not,
            '&' => DfaState::BitwiseAnd,
            '|' => DfaState::BitwiseOr,
            '.' => DfaState::Dot,
            ',' => DfaState::Comma,
            ':' => DfaState::Colon,
            ';' => DfaState::Semicolon,
            _ => DfaState::Exit,
        }
    }

    fn identifier(self, next_char: char) -> (r: DfaState)
        ensures
            r == if is_identifier_part(next_char) {
                DfaState::Identifier
            } else {
                DfaState::Exit
            },
    {
        match next_char {
            'A'..='Z' | 'a'..='z' | '_' | '0'..='9' => DfaState::Identifier,
            _ => DfaState::Exit,
        }
    }

    fn number(self, next_char: char) -> (r: DfaState)
        ensures
            r == if is_digit(next_char) {
                DfaState::Number
            } else {
                DfaState::Exit
            },
    {
        match next_char {
            '0'..='9' => DfaState::Number,
            _ => DfaState::Exit,
        }
    }

    /// After `=`: a second `=` completes `==`.
    pub fn assignment(self, next_char: char) -> (r: DfaState)
        ensures
            r == promote(next_char, '=', DfaState::Equals),
    {
        match next_char {
            '=' => DfaState::Equals,
            _ => DfaState::Exit,
        }
    }

    /// After `<`: `=` completes `<=`.
    pub fn less(self, next_char: char) -> (r: DfaState)
        ensures
            r == promote(next_char, '=', DfaState::LessThanEquals),
    {
        match next_char {
            '=' => DfaState::LessThanEquals,
            _ => DfaState::Exit,
        }
    }

    /// After `>`: `=` completes `>=`.
    pub fn greater(self, next_char: char) -> (r: DfaState)
        ensures
            r == promote(next_char, '=', DfaState::GreaterThanEquals),
    {
        match next_char {
            '=' => DfaState::GreaterThanEquals,
            _ => DfaState::Exit,
        }
    }

    /// After `!`: `=` completes `!=`.
    pub fn not(self, next_char: char) -> (r: DfaState)
        ensures
            r == promote(next_char, '=', DfaState::NotEquals),
    {
        match next_char {
            '=' => DfaState::NotEquals,
            _ => DfaState::Exit,
        }
    }

    /// After `&`: a second `&` completes `&&`.
    pub fn bitwise_and(self, next_char: char) -> (r: DfaState)
        ensures
            r == promote(next_char, '&', DfaState::LogicalAnd),
    {
        match next_char {
            '&' => DfaState::LogicalAnd,
            _ => DfaState::Exit,
        }
    }

    /// After `|`: a second `|` completes `||`.
    pub fn bitwise_or(self, next_char: char) -> (r: DfaState)
        ensures
            r == promote(next_char, '|', DfaState::LogicalOr),
    {
        match next_char {
            '|' => DfaState::LogicalOr,
            _ => DfaState::Exit,
        }
    }

    fn exit(self) -> (r: DfaState)
        ensures
            r == DfaState::Exit,
    {
        DfaState::Exit
    }
}

} // verus!
