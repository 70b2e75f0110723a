use lexer::buffer::{Buffer, BufferError};
use lexer::source::ByteSource;
use lexer::{Token, Tokenizer, TokenizerError};

struct Broken {
    first: bool,
}

impl ByteSource for Broken {
    fn read_chunk(&mut self, limit: usize) -> Result<Vec<u8>, std::io::Error> {
        if self.first {
            self.first = false;
            Ok(vec![b'a'; limit])
        } else {
            Err(std::io::Error::new(std::io::ErrorKind::Other, "unplugged"))
        }
    }
}

fn tokens_of(source: &str) -> Vec<Token> {
    let mut tokenizer = Tokenizer::new(source.as_bytes()).unwrap();
    let mut tokens = Vec::new();
    loop {
        match tokenizer.get_next_token() {
            Ok(token) => tokens.push(token),
            Err(TokenizerError::EndOfFile) => return tokens,
            Err(e) => panic!("{:?}", e),
        }
    }
}

fn identifier(text: &str) -> Token {
    Token::Identifier(String::from(text))
}

#[test]
fn lib_should_return_true() {}

#[test]
fn whitespace_only_input_ends_without_a_token() {
    let mut tokenizer = Tokenizer::new(" \t\n \n".as_bytes()).unwrap();
    assert!(matches!(tokenizer.get_next_token(), Err(TokenizerError::EndOfFile)));
    assert!(matches!(tokenizer.get_next_token(), Err(TokenizerError::EndOfFile)));
}

#[test]
fn whitespace_longer_than_the_buffer_ends_without_a_token() {
    let spaces = vec![b' '; 10000];
    let mut tokenizer = Tokenizer::new(&spaces[..]).unwrap();
    assert!(matches!(tokenizer.get_next_token(), Err(TokenizerError::EndOfFile)));
    assert!(matches!(tokenizer.get_next_token(), Err(TokenizerError::EndOfFile)));
}

#[test]
fn an_empty_source_makes_no_tokenizer() {
    let r = Tokenizer::new("".as_bytes());
    assert!(matches!(r, Err(BufferError::EndOfFile)));
}

#[test]
fn double_equals_is_one_token() {
    assert_eq!(tokens_of("=="), vec![Token::Equals]);
    assert_eq!(tokens_of("==="), vec![Token::Equals, Token::Assignment]);
    assert_eq!(tokens_of("= ="), vec![Token::Assignment, Token::Assignment]);
}

#[test]
fn double_ampersand_is_one_token() {
    assert_eq!(tokens_of("&&"), vec![Token::LogicalAnd]);
    assert_eq!(tokens_of("&&&"), vec![Token::LogicalAnd, Token::BitwiseAnd]);
}

#[test]
fn a_single_ampersand_or_bar_is_a_bitwise_operator() {
    assert_eq!(tokens_of("&"), vec![Token::BitwiseAnd]);
    assert_eq!(tokens_of("|"), vec![Token::BitwiseOr]);
    assert_eq!(tokens_of("a|b"), vec![identifier("a"), Token::BitwiseOr, identifier("b")]);
    assert_eq!(tokens_of("||"), vec![Token::LogicalOr]);
    assert_eq!(tokens_of("&|"), vec![Token::BitwiseAnd, Token::BitwiseOr]);
}

#[test]
fn a_leading_zero_is_a_number_of_its_own() {
    assert_eq!(tokens_of("0123"), vec![Token::Number(0), Token::Number(123)]);
    assert_eq!(tokens_of("0"), vec![Token::Number(0)]);
    assert_eq!(tokens_of("00"), vec![Token::Number(0), Token::Number(0)]);
    assert_eq!(tokens_of("100"), vec![Token::Number(100)]);
}

#[test]
fn a_keyword_wins_over_an_identifier() {
    assert_eq!(tokens_of("public"), vec![Token::Public]);
    assert_eq!(tokens_of("publicx"), vec![identifier("publicx")]);
    assert_eq!(tokens_of("Public"), vec![identifier("Public")]);
    assert_eq!(tokens_of("publi"), vec![identifier("publi")]);
}

#[test]
fn the_head_of_a_class() {
    assert_eq!(
        tokens_of("class Factorial{public static void main(String a){"),
        vec![
            Token::Class,
            identifier("Factorial"),
            Token::LBrace,
            Token::Public,
            Token::Static,
            Token::Void,
            Token::Main,
            Token::LParen,
            Token::String,
            identifier("a"),
            Token::RParen,
            Token::LBrace,
        ]
    );
}

#[test]
fn every_keyword() {
    assert_eq!(
        tokens_of(
            "boolean true false int String class public static main extends if else while new \
             this void return length System out println"
        ),
        vec![
            Token::Boolean,
            Token::True,
            Token::False,
            Token::Int,
            Token::String,
            Token::Class,
            Token::Public,
            Token::Static,
            Token::Main,
            Token::Extends,
            Token::If,
            Token::Else,
            Token::While,
            Token::New,
            Token::This,
            Token::Void,
            Token::Return,
            Token::Length,
            Token::System,
            Token::Out,
            Token::Println,
        ]
    );
}

#[test]
fn every_operator_and_mark() {
    assert_eq!(
        tokens_of("( ) { } [ ] . , ; : + - * / = == < <= > >= ! != & && | ||"),
        vec![
            Token::LParen,
            Token::RParen,
            Token::LBrace,
            Token::RBrace,
            Token::LBrack,
            Token::RBrack,
            Token::Dot,
            Token::Comma,
            Token::Semicolon,
            Token::Colon,
            Token::Plus,
            Token::Minus,
            Token::Multiply,
            Token::Divide,
            Token::Assignment,
            Token::Equals,
            Token::LessThan,
            Token::LessThanEquals,
            Token::GreaterThan,
            Token::GreaterThanEquals,
            Token::Not,
            Token::NotEquals,
            Token::BitwiseAnd,
            Token::LogicalAnd,
            Token::BitwiseOr,
            Token::LogicalOr,
        ]
    );
}

#[test]
fn tokens_need_no_space_between_them() {
    assert_eq!(
        tokens_of("System.out.println(a1_b<=10);"),
        vec![
            Token::System,
            Token::Dot,
            Token::Out,
            Token::Dot,
            Token::Println,
            Token::LParen,
            identifier("a1_b"),
            Token::LessThanEquals,
            Token::Number(10),
            Token::RParen,
            Token::Semicolon,
        ]
    );
}

#[test]
fn a_number_ends_where_a_letter_begins() {
    assert_eq!(tokens_of("12ab"), vec![Token::Number(12), identifier("ab")]);
    assert_eq!(tokens_of("ab12"), vec![identifier("ab12")]);
}

#[test]
fn the_largest_number() {
    assert_eq!(tokens_of("4294967295"), vec![Token::Number(4294967295)]);
}

#[test]
fn a_number_too_large_is_an_error() {
    let mut tokenizer = Tokenizer::new("4294967296 7".as_bytes()).unwrap();
    assert!(matches!(tokenizer.get_next_token(), Err(TokenizerError::IntParseError)));
    assert_eq!(tokenizer.get_next_token().unwrap(), Token::Number(7));
    let mut tokenizer = Tokenizer::new("99999999999999999999999".as_bytes()).unwrap();
    assert!(matches!(tokenizer.get_next_token(), Err(TokenizerError::IntParseError)));
}

#[test]
fn a_character_that_begins_no_token() {
    let mut tokenizer = Tokenizer::new("@".as_bytes()).unwrap();
    match tokenizer.get_next_token() {
        Err(TokenizerError::InvalidToken(raw)) => assert_eq!(raw, "@"),
        other => panic!("{:?}", other),
    }
}

#[test]
fn an_invalid_token_holds_the_spaces_before_it() {
    let mut tokenizer = Tokenizer::new("ab \t#".as_bytes()).unwrap();
    assert_eq!(tokenizer.get_next_token().unwrap(), identifier("ab"));
    match tokenizer.get_next_token() {
        Err(TokenizerError::InvalidToken(raw)) => assert_eq!(raw, " \t#"),
        other => panic!("{:?}", other),
    }
    // Nothing was consumed: the same text is scanned again.
    match tokenizer.get_next_token() {
        Err(TokenizerError::InvalidToken(raw)) => assert_eq!(raw, " \t#"),
        other => panic!("{:?}", other),
    }
}

#[test]
fn an_underscore_begins_no_token() {
    let mut tokenizer = Tokenizer::new("_a".as_bytes()).unwrap();
    match tokenizer.get_next_token() {
        Err(TokenizerError::InvalidToken(raw)) => assert_eq!(raw, "_"),
        other => panic!("{:?}", other),
    }
}

#[test]
fn a_byte_above_ascii_begins_no_token() {
    let bytes = [b'a', b' ', 0xc3, 0xa9];
    let mut tokenizer = Tokenizer::new(&bytes[..]).unwrap();
    assert_eq!(tokenizer.get_next_token().unwrap(), identifier("a"));
    match tokenizer.get_next_token() {
        Err(TokenizerError::InvalidToken(raw)) => assert_eq!(raw, " \u{c3}"),
        other => panic!("{:?}", other),
    }
}

#[test]
fn spaces_within_half_the_buffer_are_given_back() {
    let mut source = vec![b' '; 2048];
    source.push(b'@');
    let mut tokenizer = Tokenizer::new(&source[..]).unwrap();
    match tokenizer.get_next_token() {
        Err(TokenizerError::InvalidToken(raw)) => {
            assert_eq!(raw.len(), 2049);
            assert!(raw.ends_with('@'));
        }
        other => panic!("{:?}", other),
    }
}

#[test]
fn spaces_beyond_the_buffer_cannot_be_given_back() {
    let mut source = vec![b' '; 5000];
    source.push(b'@');
    let mut tokenizer = Tokenizer::new(&source[..]).unwrap();
    assert!(matches!(
        tokenizer.get_next_token(),
        Err(TokenizerError::FileError(BufferError::RollBackError))
    ));
}

#[test]
fn spaces_of_the_whole_capacity_cannot_be_given_back() {
    let mut source = vec![b' '; 4096];
    source.push(b'@');
    let mut tokenizer = Tokenizer::new(&source[..]).unwrap();
    assert!(matches!(
        tokenizer.get_next_token(),
        Err(TokenizerError::FileError(BufferError::RollBackError))
    ));
}

#[test]
fn a_token_of_half_the_buffer_comes_whole() {
    let name = "x".repeat(2048);
    let source = format!("  {} = 1", name);
    assert_eq!(
        tokens_of(&source),
        vec![identifier(&name), Token::Assignment, Token::Number(1)]
    );
}

#[test]
fn a_token_longer_than_half_the_buffer_is_too_large() {
    let letters = [b'a'; 2049];
    let mut tokenizer = Tokenizer::new(&letters[..]).unwrap();
    assert!(matches!(
        tokenizer.get_next_token(),
        Err(TokenizerError::FileError(BufferError::RollBackError))
    ));
}

#[test]
fn a_long_identifier_is_too_large() {
    let source = format!("ab {} cd", "x".repeat(10000));
    let mut tokenizer = Tokenizer::new(source.as_bytes()).unwrap();
    assert_eq!(tokenizer.get_next_token().unwrap(), identifier("ab"));
    assert!(matches!(
        tokenizer.get_next_token(),
        Err(TokenizerError::FileError(BufferError::RollBackError))
    ));
}

#[test]
fn a_run_of_digits_longer_than_half_the_buffer_is_too_large() {
    let source = "1".repeat(2049);
    let mut tokenizer = Tokenizer::new(source.as_bytes()).unwrap();
    assert!(matches!(
        tokenizer.get_next_token(),
        Err(TokenizerError::FileError(BufferError::RollBackError))
    ));
    let source = "1".repeat(2048);
    let mut tokenizer = Tokenizer::new(source.as_bytes()).unwrap();
    assert!(matches!(tokenizer.get_next_token(), Err(TokenizerError::IntParseError)));
}

#[test]
fn the_spaces_before_a_token_do_not_count() {
    let name = "y".repeat(2048);
    let source = format!("{}{}", " ".repeat(3000), name);
    assert_eq!(tokens_of(&source), vec![identifier(&name)]);
    let source = format!("{}{}", " ".repeat(3000), "y".repeat(2049));
    let mut tokenizer = Tokenizer::new(source.as_bytes()).unwrap();
    assert!(matches!(
        tokenizer.get_next_token(),
        Err(TokenizerError::FileError(BufferError::RollBackError))
    ));
}

#[test]
fn a_token_too_large_is_consumed_up_to_the_bound() {
    let source = format!("{} b", "a".repeat(2050));
    let mut tokenizer = Tokenizer::new(source.as_bytes()).unwrap();
    assert!(matches!(
        tokenizer.get_next_token(),
        Err(TokenizerError::FileError(BufferError::RollBackError))
    ));
    assert_eq!(tokenizer.get_next_token().unwrap(), identifier("aa"));
    assert_eq!(tokenizer.get_next_token().unwrap(), identifier("b"));
    assert!(matches!(tokenizer.get_next_token(), Err(TokenizerError::EndOfFile)));
}

#[test]
fn many_tokens_across_many_chunks() {
    let mut source = String::new();
    for _ in 0..3000 {
        source.push_str("while (i <= 10) ");
    }
    let tokens = tokens_of(&source);
    assert_eq!(tokens.len(), 3000 * 6);
    for group in tokens.chunks(6) {
        assert_eq!(
            group,
            [
                Token::While,
                Token::LParen,
                identifier("i"),
                Token::LessThanEquals,
                Token::Number(10),
                Token::RParen,
            ]
        );
    }
}

#[test]
fn the_tokens_written_out_are_the_source() {
    let source = "class A { public static void main ( String a ) { if ( a <= 10 && ! b || 0 != \
                  c1_x ) { System . out . println ( 4294967295 ) ; } x = y [ 2 ] * 3 / 4 - 5 + 6 \
                  ; a , b : c == d >= e > f < g & h | i } }";
    let written: Vec<String> = tokens_of(source).iter().map(|token| token.to_text()).collect();
    assert_eq!(written.join(" "), source);
}

#[test]
fn every_token_is_written_as_it_was_read() {
    let source = "while(i<=10){sum=sum+i;i=i+1;}(sum);";
    let written: Vec<String> = tokens_of(source).iter().map(|token| token.to_text()).collect();
    assert_eq!(written.concat(), source);
}

#[test]
fn a_token_may_end_at_the_end_of_the_stream() {
    assert_eq!(tokens_of("a <"), vec![identifier("a"), Token::LessThan]);
    assert_eq!(tokens_of("  42"), vec![Token::Number(42)]);
    assert_eq!(tokens_of("x  \n"), vec![identifier("x")]);
}

#[test]
fn the_error_of_the_source_is_passed_on() {
    let mut tokenizer = Tokenizer::new(Broken { first: true }).unwrap();
    match tokenizer.get_next_token() {
        Err(TokenizerError::FileError(BufferError::IoError(e))) => {
            assert_eq!(e.to_string(), "unplugged")
        }
        other => panic!("{:?}", other),
    }
}

#[test]
fn a_tokenizer_over_a_buffer() {
    let rest = b" b";
    let buffer = Buffer::<&[u8], 4096>::with_chunk(&rest[..], &vec![b'a'; 2048]).unwrap();
    let mut tokenizer = Tokenizer::from_buffer(buffer);
    assert_eq!(tokenizer.get_next_token().unwrap(), identifier(&"a".repeat(2048)));
    assert_eq!(tokenizer.get_next_token().unwrap(), identifier("b"));
    assert!(matches!(tokenizer.get_next_token(), Err(TokenizerError::EndOfFile)));
}
