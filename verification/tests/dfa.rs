use lexer::dfa::{is_whitespace, DfaState};

#[test]
fn start_fans_out_on_the_first_character() {
    let start = DfaState::Start;
    assert!(start.next_state('a') == DfaState::Identifier);
    assert!(start.next_state('Z') == DfaState::Identifier);
    assert!(start.next_state('0') == DfaState::Zero);
    assert!(start.next_state('1') == DfaState::Number);
    assert!(start.next_state('9') == DfaState::Number);
    assert!(start.next_state(' ') == DfaState::Start);
    assert!(start.next_state('\t') == DfaState::Start);
    assert!(start.next_state('\n') == DfaState::Start);
    for c in ['{', '}', '[', ']', '(', ')'] {
        assert!(start.next_state(c) == DfaState::Bracket);
    }
    assert!(start.next_state('-') == DfaState::Minus);
    assert!(start.next_state('*') == DfaState::Multiply);
    assert!(start.next_state('/') == DfaState::Div);
    assert!(start.next_state('+') == DfaState::Plus);
    assert!(start.next_state('=') == DfaState::Assignment);
    assert!(start.next_state('<') == DfaState::LessThan);
    assert!(start.next_state('>') == DfaState::GreaterThan);
    assert!(start.next_state('!') == DfaState::Not);
    assert!(start.next_state('&') == DfaState::BitwiseAnd);
    assert!(start.next_state('|') == DfaState::BitwiseOr);
    assert!(start.next_state('.') == DfaState::Dot);
    assert!(start.next_state(',') == DfaState::Comma);
    assert!(start.next_state(':') == DfaState::Colon);
    assert!(start.next_state(';') == DfaState::Semicolon);
}

#[test]
fn start_leaves_on_an_unknown_character() {
    for c in ['@', '#', '_', '\r', '"', '\u{e9}', '\u{0}'] {
        assert!(DfaState::Start.next_state(c) == DfaState::Exit);
    }
}

#[test]
fn identifier_loops_on_letters_digits_and_underscore() {
    let id = DfaState::Identifier;
    for c in ['a', 'z', 'A', 'Z', '0', '9', '_'] {
        assert!(id.next_state(c) == DfaState::Identifier);
    }
    for c in [' ', '+', '(', '.', '@'] {
        assert!(id.next_state(c) == DfaState::Exit);
    }
}

#[test]
fn number_loops_on_digits() {
    let number = DfaState::Number;
    for c in ['0', '5', '9'] {
        assert!(number.next_state(c) == DfaState::Number);
    }
    for c in ['a', '_', ' ', '.'] {
        assert!(number.next_state(c) == DfaState::Exit);
    }
}

#[test]
fn zero_takes_no_further_digit() {
    for c in ['0', '1', '9', 'a', ' '] {
        assert!(DfaState::Zero.next_state(c) == DfaState::Exit);
    }
}

#[test]
fn double_character_operators_are_promoted() {
    assert!(DfaState::Assignment.next_state('=') == DfaState::Equals);
    assert!(DfaState::LessThan.next_state('=') == DfaState::LessThanEquals);
    assert!(DfaState::GreaterThan.next_state('=') == DfaState::GreaterThanEquals);
    assert!(DfaState::Not.next_state('=') == DfaState::NotEquals);
    assert!(DfaState::BitwiseAnd.next_state('&') == DfaState::LogicalAnd);
    assert!(DfaState::BitwiseOr.next_state('|') == DfaState::LogicalOr);
}

#[test]
fn operator_heads_leave_on_any_other_character() {
    assert!(DfaState::Assignment.next_state('<') == DfaState::Exit);
    assert!(DfaState::LessThan.next_state('<') == DfaState::Exit);
    assert!(DfaState::GreaterThan.next_state('>') == DfaState::Exit);
    assert!(DfaState::Not.next_state('!') == DfaState::Exit);
    assert!(DfaState::BitwiseAnd.next_state('|') == DfaState::Exit);
    assert!(DfaState::BitwiseOr.next_state('&') == DfaState::Exit);
}

#[test]
fn the_helpers_of_the_operator_heads() {
    let any = DfaState::Start;
    assert!(any.assignment('=') == DfaState::Equals);
    assert!(any.assignment('a') == DfaState::Exit);
    assert!(any.less('=') == DfaState::LessThanEquals);
    assert!(any.less('<') == DfaState::Exit);
    assert!(any.greater('=') == DfaState::GreaterThanEquals);
    assert!(any.greater('>') == DfaState::Exit);
    assert!(any.not('=') == DfaState::NotEquals);
    assert!(any.not('!') == DfaState::Exit);
    assert!(any.bitwise_and('&') == DfaState::LogicalAnd);
    assert!(any.bitwise_and('=') == DfaState::Exit);
    assert!(any.bitwise_or('|') == DfaState::LogicalOr);
    assert!(any.bitwise_or('=') == DfaState::Exit);
}

#[test]
fn complete_tokens_take_no_further_character() {
    let done = [
        DfaState::Bracket,
        DfaState::Plus,
        DfaState::Minus,
        DfaState::Multiply,
        DfaState::Div,
        DfaState::Equals,
        DfaState::LessThanEquals,
        DfaState::GreaterThanEquals,
        DfaState::NotEquals,
        DfaState::LogicalAnd,
        DfaState::LogicalOr,
        DfaState::Dot,
        DfaState::Comma,
        DfaState::Semicolon,
        DfaState::Colon,
        DfaState::Exit,
        DfaState::Error,
    ];
    for state in done {
        for c in ['a', '0', '=', '&', '|', ' ', '('] {
            assert!(state.next_state(c) == DfaState::Exit);
        }
    }
}

#[test]
fn accepting_states() {
    assert!(!DfaState::Start.is_accepting());
    assert!(!DfaState::Exit.is_accepting());
    assert!(!DfaState::Error.is_accepting());
    assert!(DfaState::Identifier.is_accepting());
    assert!(DfaState::Zero.is_accepting());
    assert!(DfaState::Number.is_accepting());
    assert!(DfaState::BitwiseOr.is_accepting());
    assert!(DfaState::Comma.is_accepting());
}

#[test]
fn what_separates_tokens() {
    assert!(is_whitespace(' '));
    assert!(is_whitespace('\t'));
    assert!(is_whitespace('\n'));
    assert!(!is_whitespace('\r'));
    assert!(!is_whitespace('a'));
}
