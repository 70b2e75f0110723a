//! How a token is written, and why a token read from a text is written
//! as the text was.

use vstd::prelude::*;
use vstd::string::StringExecFns;
use crate::dfa::{first_state, is_bracket, is_digit, is_identifier_part, is_letter, is_space, DfaState};
use crate::scan::{
    lemma_leading_spaces, lemma_longest_match, lemma_run_from_exit, run, scan, Scan,
};
use crate::token::{all_digits, decimal, digit_value, meaning, Meaning, Token};

verus! {

/// The character that writes a digit's value.
pub open spec fn digit_char(value: nat) -> char {
    ('0' as nat + value) as char
}

/// The decimal digits that write `n`, with no zero at the front but for zero
/// itself.
pub open spec fn digits(n: nat) -> Seq<char>
    decreases n,
{
    if n < 10 {
        seq![digit_char(n)]
    } else {
        digits(n / 10).push(digit_char(n % 10))
    }
}

impl Token {
    /// The characters that write the token.
    pub open spec fn spelling(self) -> Seq<char> {
        match self {
            Token::Identifier(text) => text@,
            Token::Number(n) => digits(n as nat),
            Token::Boolean => "boolean"@,
            Token::True => "true"@,
            Token::False => "false"@,
            Token::Int => "int"@,
            Token::String => "String"@,
            Token::Class => "class"@,
            Token::Public => "public"@,
            Token::Static => "static"@,
            Token::Main => "main"@,
            Token::Extends => "extends"@,
            Token::If => "if"@,
            Token::Else => "else"@,
            Token::While => "while"@,
            Token::New => "new"@,
            Token::This => "this"@,
            Token::Void => "void"@,
            Token::Return => "return"@,
            Token::Length => "length"@,
            Token::System => "System"@,
            Token::Out => "out"@,
            Token::Println => "println"@,
            Token::LParen => seq!['('],
            Token::RParen => seq![')'],
            Token::LBrace => seq!['{'],
            Token::RBrace => seq!['}'],
            Token::LBrack => seq!['['],
            Token::RBrack => seq![']'],
            Token::Plus => seq!['+'],
            Token::Multiply => seq!['*'],
            Token::Minus => seq!['-'],
            Token::Divide => seq!['/'],
            Token::Assignment => seq!['='],
            Token::Equals => seq!['=', '='],
            Token::Not => seq!['!'],
            Token::NotEquals => seq!['!', '='],
            Token::GreaterThan => seq!['>'],
            Token::GreaterThanEquals => seq!['>', '='],
            Token::LessThan => seq!['<'],
            Token::LessThanEquals => seq!['<', '='],
            Token::BitwiseAnd => seq!['&'],
            Token::LogicalAnd => seq!['&', '&'],
            Token::BitwiseOr => seq!['|'],
            Token::LogicalOr => seq!['|', '|'],
            Token::Colon => seq![':'],
            Token::Semicolon => seq![';'],
            Token::Dot => seq!['.'],
            Token::Comma => seq![','],
        }
    }
}

/// A string of one character.
fn one(c: char) -> (r: String)
    ensures
        r@ == seq![c],
{
    let mut text = String::new();
    text.push(c);
    assert(text@ =~= seq![c]);
    text
}

/// A string of two characters.
fn two(first: char, second: char) -> (r: String)
    ensures
        r@ == seq![first, second],
{
    let mut text = String::new();
    text.push(first);
    text.push(second);
    assert(text@ =~= seq![first, second]);
    text
}

/// The decimal digits that write `n`.
pub fn number_text(n: u32) -> (r: String)
    ensures
        r@ == digits(n as nat),
    decreases n,
{
    if n < 10 {
        one(digit_of(n))
    } else {
        let mut text = number_text(n / 10);
        text.push(digit_of(n % 10));
        text
    }
}

/// The character that writes the digit `value`.
fn digit_of(value: u32) -> (r: char)
    requires
        value < 10,
    ensures
        r == digit_char(value as nat),
{
    let code: u8 = 48 + value as u8;
    code as char
}

impl Token {
    /// The characters that write the token, as a string.
    pub fn to_text(&self) -> (r: String)
        ensures
            r@ == self.spelling(),
    {
        match self {
            Token::Identifier(text) => text.clone(),
            Token::Number(n) => number_text(*n),
            Token::Boolean => String::from_str("boolean"),
            Token::True => String::from_str("true"),
            Token::False => String::from_str("false"),
            Token::Int => String::from_str("int"),
            Token::String => String::from_str("String"),
            Token::Class => String::from_str("class"),
            Token::Public => String::from_str("public"),
            Token::Static => String::from_str("static"),
            Token::Main => String::from_str("main"),
            Token::Extends => String::from_str("extends"),
            Token::If => String::from_str("if"),
            Token::Else => String::from_str("else"),
            Token::While => String::from_str("while"),
            Token::New => String::from_str("new"),
            Token::This => String::from_str("this"),
            Token::Void => String::from_str("void"),
            Token::Return => String::from_str("return"),
            Token::Length => String::from_str("length"),
            Token::System => String::from_str("System"),
            Token::Out => String::from_str("out"),
            Token::Println => String::from_str("println"),
            Token::LParen => one('('),
            Token::RParen => one(')'),
            Token::LBrace => one('{'),
            Token::RBrace => one('}'),
            Token::LBrack => one('['),
            Token::RBrack => one(']'),
            Token::Plus => one('+'),
            Token::Multiply => one('*'),
            Token::Minus => one('-'),
            Token::Divide => one('/'),
            Token::Assignment => one('='),
            Token::Equals => two('=', '='),
            Token::Not => one('!'),
            Token::NotEquals => two('!', '='),
            Token::GreaterThan => one('>'),
            Token::GreaterThanEquals => two('>', '='),
            Token::LessThan => one('<'),
            Token::LessThanEquals => two('<', '='),
            Token::BitwiseAnd => one('&'),
            Token::LogicalAnd => two('&', '&'),
            Token::BitwiseOr => one('|'),
            Token::LogicalOr => two('|', '|'),
            Token::Colon => one(':'),
            Token::Semicolon => one(';'),
            Token::Dot => one('.'),
            Token::Comma => one(','),
        }
    }
}

/// What a lexeme looks like that leads the automaton from `Start` to
/// `state`.
pub open spec fn shaped(state: DfaState, lexeme: Seq<char>) -> bool {
    match state {
        DfaState::Identifier => {
            &&& lexeme.len() > 0
            &&& is_letter(lexeme[0])
            &&& forall|i: int| 0 <= i < lexeme.len() ==> is_identifier_part(#[trigger] lexeme[i])
        },
        DfaState::Zero => lexeme == seq!['0'],
        DfaState::Number => lexeme.len() > 0 && all_digits(lexeme) && lexeme[0] != '0',
        DfaState::Equals => lexeme == seq!['=', '='],
        DfaState::LessThanEquals => lexeme == seq!['<', '='],
        DfaState::GreaterThanEquals => lexeme == seq!['>', '='],
        DfaState::NotEquals => lexeme == seq!['!', '='],
        DfaState::LogicalAnd => lexeme == seq!['&', '&'],
        DfaState::LogicalOr => lexeme == seq!['|', '|'],
        DfaState::Start | DfaState::Exit | DfaState::Error => false,
        _ => lexeme.len() == 1 && first_state(lexeme[0]) == state,
    }
}

/// What the automaton can read from an accepting state without leaving:
/// more of an identifier or of a number, the second character of an operator,
/// or nothing.
proof fn lemma_run_on(state: DfaState, text: Seq<char>)
    requires
        state.accepting(),
        run(state, text) != DfaState::Exit,
    ensures
        match state {
            DfaState::Identifier => {
                &&& run(state, text) == DfaState::Identifier
                &&& forall|i: int| 0 <= i < text.len() ==> is_identifier_part(#[trigger] text[i])
            },
            DfaState::Number => run(state, text) == DfaState::Number && all_digits(text),
            _ => {
                ||| text.len() == 0 && run(state, text) == state
                ||| text.len() == 1 && run(state, text) == state.step(text[0])
            },
        },
    decreases text.len(),
{
    if text.len() > 0 {
        let next = state.step(text[0]);
        let rest = text.skip(1);
        if next == DfaState::Exit {
            lemma_run_from_exit(rest);
        } else {
            lemma_run_on(next, rest);
            match state {
                DfaState::Identifier => {
                    assert forall|i: int| 0 <= i < text.len() implies is_identifier_part(
                        #[trigger] text[i],
                    ) by {
                        if i > 0 {
                            assert(text[i] == rest[i - 1]);
                        }
                    }
                },
                DfaState::Number => {
                    assert forall|i: int| 0 <= i < text.len() implies is_digit(
                        #[trigger] text[i],
                    ) by {
                        if i > 0 {
                            assert(text[i] == rest[i - 1]);
                        }
                    }
                },
                _ => {
                    if rest.len() > 0 {
                        assert(next.step(rest[0]) == DfaState::Exit);
                        lemma_run_from_exit(rest.skip(1));
                    }
                },
            }
        }
    }
}

/// A lexeme that does not begin with a space and leads the automaton to an
/// accepting state has the shape of that state.
pub proof fn lemma_shape(lexeme: Seq<char>)
    requires
        lexeme.len() > 0,
        !is_space(lexeme[0]),
        run(DfaState::Start, lexeme).accepting(),
    ensures
        shaped(run(DfaState::Start, lexeme), lexeme),
{
    let first = first_state(lexeme[0]);
    let rest = lexeme.skip(1);
    let state = run(DfaState::Start, lexeme);
    if first == DfaState::Exit {
        lemma_run_from_exit(rest);
    } else {
        lemma_run_on(first, rest);
        match first {
            DfaState::Identifier => {
                assert forall|i: int| 0 <= i < lexeme.len() implies is_identifier_part(
                    #[trigger] lexeme[i],
                ) by {
                    if i > 0 {
                        assert(lexeme[i] == rest[i - 1]);
                    }
                }
            },
            DfaState::Number => {
                assert forall|i: int| 0 <= i < lexeme.len() implies is_digit(
                    #[trigger] lexeme[i],
                ) by {
                    if i > 0 {
                        assert(lexeme[i] == rest[i - 1]);
                    }
                }
            },
            _ => {
                if rest.len() == 0 {
                    assert(lexeme =~= seq![lexeme[0]]);
                } else {
                    assert(lexeme =~= seq![lexeme[0], rest[0]]);
                }
            },
        }
    }
}

/// A run of digits without a zero at its front writes no zero.
proof fn lemma_decimal_positive(lexeme: Seq<char>)
    requires
        lexeme.len() > 0,
        all_digits(lexeme),
        lexeme[0] != '0',
    ensures
        decimal(lexeme) >= 1,
    decreases lexeme.len(),
{
    if lexeme.len() > 1 {
        let front = lexeme.drop_last();
        assert(front[0] == lexeme[0]);
        assert forall|i: int| 0 <= i < front.len() implies is_digit(#[trigger] front[i]) by {
            assert(front[i] == lexeme[i]);
        }
        lemma_decimal_positive(front);
    } else {
        assert(lexeme.drop_last().len() == 0);
        assert(decimal(lexeme.drop_last()) == 0);
        assert(is_digit(lexeme[0]));
    }
}

/// The digits that write the value of a run of digits are that run, if it
/// has no zero at its front or is one zero.
pub proof fn lemma_digits_of_decimal(lexeme: Seq<char>)
    requires
        lexeme.len() > 0,
        all_digits(lexeme),
        lexeme.len() == 1 || lexeme[0] != '0',
    ensures
        digits(decimal(lexeme)) == lexeme,
    decreases lexeme.len(),
{
    let front = lexeme.drop_last();
    let last = lexeme.last();
    assert(is_digit(last));
    assert(digit_char(digit_value(last)) == last);
    if lexeme.len() == 1 {
        assert(decimal(front) == 0);
        assert(digits(decimal(lexeme)) =~= lexeme);
    } else {
        assert(front[0] == lexeme[0]);
        assert forall|i: int| 0 <= i < front.len() implies is_digit(#[trigger] front[i]) by {
            assert(front[i] == lexeme[i]);
        }
        lemma_decimal_positive(front);
        lemma_digits_of_decimal(front);
        let value = decimal(lexeme);
        assert(value == 10 * decimal(front) + digit_value(last));
        assert(value / 10 == decimal(front));
        assert(value % 10 == digit_value(last));
        assert(digits(value) =~= lexeme);
    }
}

/// What a scan finds as a token has a meaning: the lexeme has the shape of
/// its state, its table holds it, and the one failure left is a number too
/// large for 32 bits.
pub proof fn lemma_scanned_meaning(text: Seq<char>)
    ensures
        scan(text) matches Scan::Token { skipped, end, state } ==> {
            let lexeme = text.subrange(skipped as int, end as int);
            &&& shaped(state, lexeme)
            &&& !(meaning(state, lexeme) is Nothing)
            &&& meaning(state, lexeme) is Overflow <==> state == DfaState::Number && decimal(lexeme)
                > u32::MAX
        },
{
    if let Scan::Token { skipped, end, state } = scan(text) {
        let lexeme = text.subrange(skipped as int, end as int);
        lemma_longest_match(text);
        lemma_leading_spaces(text);
        assert(lexeme[0] == text[skipped as int]);
        lemma_shape(lexeme);
    }
}

/// Round trip of one token. The token that is returned for what a scan
/// finds is written as the characters that the scan took for it.
pub proof fn lemma_token_spells_lexeme(text: Seq<char>, token: Token)
    requires
        scan(text) matches Scan::Token { skipped, end, state } && meaning(
            state,
            text.subrange(skipped as int, end as int),
        ).is_met_by(Ok(token)),
    ensures
        scan(text) matches Scan::Token { skipped, end, state } && token.spelling()
            == text.subrange(skipped as int, end as int),
{
    if let Scan::Token { skipped, end, state } = scan(text) {
        let lexeme = text.subrange(skipped as int, end as int);
        lemma_scanned_meaning(text);
        match state {
            DfaState::Zero => {
                assert(digits(0) =~= lexeme);
            },
            DfaState::Number => {
                lemma_digits_of_decimal(lexeme);
            },
            DfaState::Identifier => {},
            _ => {
                assert(token.spelling() =~= lexeme);
            },
        }
    }
}

} // verus!
