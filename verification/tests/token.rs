use lexer::dfa::DfaState;
use lexer::history::History;
use lexer::spelling::number_text;
use lexer::token::{
    lookup_bracket, lookup_keyword, lookup_numerical_operator, text_of, tokenize,
    tokenize_bracket, tokenize_identifier, tokenize_num_operator, tokenize_number, trim,
};
use lexer::{Token, TokenizerError};

fn chars(text: &str) -> Vec<char> {
    text.chars().collect()
}

#[test]
fn keywords_are_looked_up_by_their_spelling() {
    assert_eq!(lookup_keyword(&chars("boolean")), Some(Token::Boolean));
    assert_eq!(lookup_keyword(&chars("String")), Some(Token::String));
    assert_eq!(lookup_keyword(&chars("println")), Some(Token::Println));
    assert_eq!(lookup_keyword(&chars("string")), None);
    assert_eq!(lookup_keyword(&chars("printl")), None);
    assert_eq!(lookup_keyword(&chars("printlnn")), None);
    assert_eq!(lookup_keyword(&chars("")), None);
}

#[test]
fn brackets_are_looked_up_by_their_character() {
    assert_eq!(lookup_bracket('{'), Some(Token::LBrace));
    assert_eq!(lookup_bracket('}'), Some(Token::RBrace));
    assert_eq!(lookup_bracket('['), Some(Token::LBrack));
    assert_eq!(lookup_bracket(']'), Some(Token::RBrack));
    assert_eq!(lookup_bracket('('), Some(Token::LParen));
    assert_eq!(lookup_bracket(')'), Some(Token::RParen));
    assert_eq!(lookup_bracket('<'), None);
}

#[test]
fn arithmetic_operators_are_looked_up_by_their_character() {
    assert_eq!(lookup_numerical_operator('-'), Some(Token::Minus));
    assert_eq!(lookup_numerical_operator('+'), Some(Token::Plus));
    assert_eq!(lookup_numerical_operator('/'), Some(Token::Divide));
    assert_eq!(lookup_numerical_operator('*'), Some(Token::Multiply));
    assert_eq!(lookup_numerical_operator('%'), None);
}

#[test]
fn an_identifier_keeps_its_text() {
    assert_eq!(
        tokenize_identifier(&chars("Factorial")),
        Token::Identifier(String::from("Factorial"))
    );
    assert_eq!(tokenize_identifier(&chars("while")), Token::While);
}

#[test]
fn a_string_of_the_characters() {
    assert_eq!(text_of(&chars("a1_b")), "a1_b");
    assert_eq!(text_of(&chars("")), "");
}

#[test]
fn a_number_is_what_its_digits_write() {
    assert_eq!(tokenize_number(&chars("0")).unwrap(), Token::Number(0));
    assert_eq!(tokenize_number(&chars("123")).unwrap(), Token::Number(123));
    assert_eq!(tokenize_number(&chars("007")).unwrap(), Token::Number(7));
    assert_eq!(tokenize_number(&chars("4294967295")).unwrap(), Token::Number(u32::MAX));
}

#[test]
fn a_number_beyond_32_bits_is_refused() {
    assert!(matches!(tokenize_number(&chars("4294967296")), Err(TokenizerError::IntParseError)));
    assert!(matches!(tokenize_number(&chars("4294967300")), Err(TokenizerError::IntParseError)));
    assert!(matches!(tokenize_number(&chars("10000000000")), Err(TokenizerError::IntParseError)));
}

#[test]
fn what_is_no_run_of_digits_is_no_number() {
    assert!(matches!(tokenize_number(&chars("")), Err(TokenizerError::IntParseError)));
    assert!(matches!(tokenize_number(&chars("12a")), Err(TokenizerError::IntParseError)));
    assert!(matches!(tokenize_number(&chars("+5")), Err(TokenizerError::IntParseError)));
}

#[test]
fn a_bracket_or_unknown() {
    assert_eq!(tokenize_bracket('(').unwrap(), Token::LParen);
    assert!(matches!(tokenize_bracket('x'), Err(TokenizerError::Unknown)));
}

#[test]
fn an_arithmetic_operator_or_unknown() {
    assert_eq!(tokenize_num_operator('*').unwrap(), Token::Multiply);
    assert!(matches!(tokenize_num_operator('='), Err(TokenizerError::Unknown)));
}

#[test]
fn trim_takes_the_spaces_at_the_front_off() {
    assert_eq!(trim(&chars(" \t\n ab c ")), chars("ab c "));
    assert_eq!(trim(&chars("ab")), chars("ab"));
    assert_eq!(trim(&chars("   ")), chars(""));
    assert_eq!(trim(&chars("")), chars(""));
    assert_eq!(trim(&chars("\rab")), chars("\rab"));
}

#[test]
fn the_token_of_a_state() {
    assert_eq!(tokenize(DfaState::Identifier, &chars("x")).unwrap(), Token::Identifier(String::from("x")));
    assert_eq!(tokenize(DfaState::Identifier, &chars("if")).unwrap(), Token::If);
    assert_eq!(tokenize(DfaState::Zero, &chars("0")).unwrap(), Token::Number(0));
    assert_eq!(tokenize(DfaState::Number, &chars("31")).unwrap(), Token::Number(31));
    assert_eq!(tokenize(DfaState::Bracket, &chars("[")).unwrap(), Token::LBrack);
    assert_eq!(tokenize(DfaState::Plus, &chars("+")).unwrap(), Token::Plus);
    assert_eq!(tokenize(DfaState::Div, &chars("/")).unwrap(), Token::Divide);
    assert_eq!(tokenize(DfaState::Comma, &chars(",")).unwrap(), Token::Comma);
    assert_eq!(tokenize(DfaState::NotEquals, &chars("!=")).unwrap(), Token::NotEquals);
    assert_eq!(tokenize(DfaState::LogicalOr, &chars("||")).unwrap(), Token::LogicalOr);
}

#[test]
fn a_state_that_accepts_nothing_has_no_token() {
    assert!(matches!(tokenize(DfaState::Start, &chars(" ")), Err(TokenizerError::Unknown)));
    assert!(matches!(tokenize(DfaState::Exit, &chars("a")), Err(TokenizerError::Unknown)));
    assert!(matches!(tokenize(DfaState::Error, &chars("a")), Err(TokenizerError::Unknown)));
    assert!(matches!(tokenize(DfaState::Bracket, &chars("")), Err(TokenizerError::Unknown)));
    assert!(matches!(tokenize(DfaState::Bracket, &chars("a")), Err(TokenizerError::Unknown)));
}

#[test]
fn a_token_is_written_as_it_is_spelled() {
    assert_eq!(Token::Identifier(String::from("a1_b")).to_text(), "a1_b");
    assert_eq!(Token::Number(0).to_text(), "0");
    assert_eq!(Token::Number(7).to_text(), "7");
    assert_eq!(Token::Number(120).to_text(), "120");
    assert_eq!(Token::Number(u32::MAX).to_text(), "4294967295");
    assert_eq!(Token::String.to_text(), "String");
    assert_eq!(Token::Println.to_text(), "println");
    assert_eq!(Token::LBrace.to_text(), "{");
    assert_eq!(Token::RBrack.to_text(), "]");
    assert_eq!(Token::Divide.to_text(), "/");
    assert_eq!(Token::GreaterThanEquals.to_text(), ">=");
    assert_eq!(Token::NotEquals.to_text(), "!=");
    assert_eq!(Token::LogicalOr.to_text(), "||");
    assert_eq!(Token::BitwiseAnd.to_text(), "&");
    assert_eq!(Token::Comma.to_text(), ",");
}

#[test]
fn the_digits_of_a_number() {
    assert_eq!(number_text(0), "0");
    assert_eq!(number_text(9), "9");
    assert_eq!(number_text(10), "10");
    assert_eq!(number_text(1905), "1905");
    assert_eq!(number_text(4294967295), "4294967295");
}

#[test]
fn a_new_history_holds_the_sentinel() {
    let mut history = History::new();
    assert!(history.pop() == Some(DfaState::Error));
    assert!(history.pop() == None);
    assert!(history.pop() == None);
}

#[test]
fn an_accepting_state_supersedes_what_came_before() {
    let mut history = History::new();
    history.record(DfaState::Start);
    history.record(DfaState::Start);
    history.record(DfaState::Assignment);
    history.record(DfaState::Equals);
    assert!(history.pop() == Some(DfaState::Equals));
    assert!(history.pop() == None);
}

#[test]
fn states_that_do_not_accept_pile_up() {
    let mut history = History::new();
    history.record(DfaState::Identifier);
    history.record(DfaState::Start);
    history.record(DfaState::Exit);
    assert!(history.pop() == Some(DfaState::Exit));
    assert!(history.pop() == Some(DfaState::Start));
    assert!(history.pop() == Some(DfaState::Identifier));
    assert!(history.pop() == None);
}
