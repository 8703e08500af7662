use lib::chunk::Chunk;
use lib::compiler::{
    identifier_continues, no_error_tokens, token_start, Compiler, TokenStart, TokenType,
};

fn scan_all(source: &str) -> Vec<(TokenType, String, usize)> {
    let mut compiler = Compiler::new(source);
    let mut out = Vec::new();
    loop {
        assert!(compiler.can_scan_token());
        let token = compiler.scan_token();
        out.push((token.t_type.clone(), token.lexeme.to_string(), token.line));
        if token.t_type == TokenType::Eof {
            break;
        }
    }
    out
}

fn kinds(source: &str) -> Vec<TokenType> {
    scan_all(source).into_iter().map(|t| t.0).collect()
}

#[test]
fn scans_punctuation_and_numbers() {
    let tokens = scan_all("(1 + 2.5) * 3 / 4 - 5;");
    let expected = [
        (TokenType::LeftParen, "("),
        (TokenType::Number, "1"),
        (TokenType::Plus, "+"),
        (TokenType::Number, "2.5"),
        (TokenType::RightParen, ")"),
        (TokenType::Star, "*"),
        (TokenType::Number, "3"),
        (TokenType::Slash, "/"),
        (TokenType::Number, "4"),
        (TokenType::Minus, "-"),
        (TokenType::Number, "5"),
        (TokenType::Semicolon, ";"),
        (TokenType::Eof, ""),
    ];
    assert_eq!(tokens.len(), expected.len());
    for (got, want) in tokens.iter().zip(expected.iter()) {
        assert_eq!(got.0, want.0);
        assert_eq!(got.1, want.1);
        assert_eq!(got.2, 1);
    }
}

#[test]
fn keywords_and_identifiers() {
    assert_eq!(
        kinds("print nil true false printer _x nil2"),
        vec![
            TokenType::Print,
            TokenType::Nil,
            TokenType::True,
            TokenType::False,
            TokenType::Identifier,
            TokenType::Identifier,
            TokenType::Identifier,
            TokenType::Eof,
        ]
    );
    let tokens = scan_all("foo_bar9");
    assert_eq!(tokens[0].1, "foo_bar9");
}

#[test]
fn a_dot_without_digits_ends_the_number() {
    let tokens = scan_all("12. 3");
    assert_eq!(tokens[0], (TokenType::Number, "12".to_string(), 1));
    assert_eq!(tokens[1], (TokenType::Error, "Unexpected character.".to_string(), 1));
    assert_eq!(tokens[2], (TokenType::Number, "3".to_string(), 1));
}

#[test]
fn lines_are_counted() {
    let tokens = scan_all("1\n2\r\n\n  3\t4\n");
    let lines: Vec<usize> = tokens.iter().map(|t| t.2).collect();
    assert_eq!(lines, vec![1, 2, 4, 4, 5]);
}

#[test]
fn unexpected_characters_give_error_tokens() {
    let tokens = scan_all("1 # 2");
    assert_eq!(tokens[1].0, TokenType::Error);
    assert_eq!(tokens[1].1, "Unexpected character.");
    assert_eq!(tokens[2], (TokenType::Number, "2".to_string(), 1));
}

#[test]
fn end_of_input_repeats() {
    let mut compiler = Compiler::new("  ");
    for _ in 0..3 {
        let token = compiler.scan_token();
        assert_eq!(token.t_type, TokenType::Eof);
        assert_eq!(token.lexeme, "");
    }
}

#[test]
fn empty_source_is_just_end_of_input() {
    assert_eq!(kinds(""), vec![TokenType::Eof]);
}

#[test]
fn identifier_ending_inside_a_character_cannot_be_cut() {
    // 'é' is C3 A9: C3 read as a character is alphabetic, A9 is not alphanumeric,
    // so the identifier would end inside the character.
    let compiler = Compiler::new("é");
    assert!(!compiler.can_scan_token());
    // 'ü' is C3 BC: BC read as a character is numeric, so the identifier covers both bytes.
    let tokens = scan_all("ü");
    assert_eq!(tokens[0], (TokenType::Identifier, "ü".to_string(), 1));
}

#[test]
fn token_start_decisions() {
    assert_eq!(token_start('7', false), TokenStart::Number);
    assert_eq!(token_start('x', true), TokenStart::Identifier);
    assert_eq!(token_start('_', false), TokenStart::Identifier);
    assert_eq!(token_start('(', false), TokenStart::Single(TokenType::LeftParen));
    assert_eq!(token_start(';', false), TokenStart::Single(TokenType::Semicolon));
    assert_eq!(token_start('#', false), TokenStart::Single(TokenType::Error));
    assert_eq!(token_start('x', false), TokenStart::Single(TokenType::Error));
}

#[test]
fn identifier_continuation() {
    assert!(identifier_continues('a', true));
    assert!(identifier_continues('_', false));
    assert!(!identifier_continues(' ', false));
}

#[test]
fn compile_succeeds_without_error_tokens() {
    assert!(no_error_tokens(&kinds("print 1 + 2;")));
    assert!(!no_error_tokens(&kinds("1 # 2")));
    assert!(no_error_tokens(&vec![]));
}

#[test]
fn try_scan_token_refuses_what_cannot_be_cut() {
    let mut compiler = Compiler::new("é");
    assert!(compiler.try_scan_token().is_none());
    assert!(compiler.try_scan_token().is_none());
    let mut compiler = Compiler::new("ab cd");
    let token = compiler.try_scan_token().unwrap();
    assert_eq!(token.t_type, TokenType::Identifier);
    assert_eq!(token.lexeme, "ab");
    let token = compiler.try_scan_token().unwrap();
    assert_eq!(token.lexeme, "cd");
    assert_eq!(compiler.try_scan_token().unwrap().t_type, TokenType::Eof);
}

#[test]
fn latin1_letters_and_numerics_form_identifiers() {
    // "ª½" is C2 AA C2 BD: each byte read as a character is alphabetic or numeric.
    let tokens = scan_all("ª½ x");
    assert_eq!(tokens[0], (TokenType::Identifier, "ª½".to_string(), 1));
    assert_eq!(tokens[1], (TokenType::Identifier, "x".to_string(), 1));
}

#[test]
fn a_byte_no_token_holds_is_a_compile_error() {
    for source in ["1 $ 2", "print @", "a ? b", "\u{7f}"] {
        assert!(kinds(source).contains(&TokenType::Error), "{:?}", source);
        assert!(!no_error_tokens(&kinds(source)));
    }
}

#[test]
fn plain_sources_compile() {
    for source in ["print (1 + 2) * x_1;", "", "\t\r\n", "a/b-c"] {
        let k = kinds(source);
        assert!(no_error_tokens(&k), "{:?}", source);
        assert_eq!(k.last(), Some(&TokenType::Eof));
    }
}

#[test]
fn scan_all_gives_every_token_up_to_the_end() {
    let mut compiler = Compiler::new("print 1.5;\nx");
    let tokens = compiler.scan_all().unwrap();
    let got: Vec<(TokenType, &str, usize)> =
        tokens.iter().map(|t| (t.t_type, t.lexeme, t.line)).collect();
    assert_eq!(
        got,
        vec![
            (TokenType::Print, "print", 1),
            (TokenType::Number, "1.5", 1),
            (TokenType::Semicolon, ";", 1),
            (TokenType::Identifier, "x", 2),
            (TokenType::Eof, "", 2),
        ]
    );
}

#[test]
fn scan_all_refuses_a_token_that_cannot_be_cut() {
    let mut compiler = Compiler::new("1 é");
    assert!(compiler.scan_all().is_none());
}

#[test]
fn compile_succeeds_exactly_without_error_tokens() {
    let mut chunk = Chunk::new();
    let (tokens, ok) = Compiler::new("print (1 + 2);").compile(&mut chunk).unwrap();
    assert!(ok);
    assert_eq!(tokens.len(), 8);
    assert!(chunk.code.is_empty() && chunk.constants.is_empty());

    let (tokens, ok) = Compiler::new("1 $ 2").compile(&mut chunk).unwrap();
    assert!(!ok);
    assert_eq!(tokens[1].t_type, TokenType::Error);
    assert_eq!(tokens[1].lexeme, "Unexpected character.");

    assert!(Compiler::new("é").compile(&mut chunk).is_none());
}
