use lox_lexer::error::ScanError;
use lox_lexer::scanner::Scanner;
use lox_lexer::token::{Token, TokenKind};

fn scan(source: &str) -> (Vec<Token>, Vec<ScanError>) {
    let mut scanner = Scanner::new(source.to_string());
    let errors = scanner.scan_tokens();
    (scanner.into_tokens(), errors)
}

fn token(kind: TokenKind, lexeme: &str, line: usize) -> Token {
    Token::new(kind, lexeme.to_string(), line, String::new())
}

fn literal(kind: TokenKind, lexeme: &str, line: usize, literal: &str) -> Token {
    Token::new(kind, lexeme.to_string(), line, literal.to_string())
}

fn end(line: usize) -> Token {
    token(TokenKind::End, "", line)
}

#[test]
fn empty_source_yields_only_end() {
    let (tokens, errors) = scan("");
    assert_eq!(tokens, vec![end(1)]);
    assert!(errors.is_empty());
}

#[test]
fn plus_minus() {
    let (tokens, errors) = scan("+-");
    assert_eq!(
        tokens,
        vec![token(TokenKind::Plus, "+", 1), token(TokenKind::Minus, "-", 1), end(1)]
    );
    assert!(errors.is_empty());
}

#[test]
fn bang_equal_is_one_token() {
    let (tokens, errors) = scan("!=");
    assert_eq!(tokens, vec![token(TokenKind::BangEqual, "!=", 1), end(1)]);
    assert!(errors.is_empty());
}

#[test]
fn comment_produces_no_token() {
    let (tokens, errors) = scan("// comment\n123");
    assert_eq!(tokens, vec![literal(TokenKind::Number, "123", 2, "123"), end(2)]);
    assert!(errors.is_empty());
}

#[test]
fn string_spanning_a_newline() {
    let source = "\"ab\ncd\"";
    let mut scanner = Scanner::new(source.to_string());
    let errors = scanner.scan_tokens();
    assert!(errors.is_empty());
    assert_eq!(scanner.line(), 2);
    let tokens = scanner.into_tokens();
    assert_eq!(tokens, vec![literal(TokenKind::String, "\"ab\ncd\"", 1, "ab\ncd"), end(2)]);
    assert_eq!(tokens[0].kind(), TokenKind::String);
    assert_eq!(tokens[0].lexeme(), "\"ab\ncd\"");
    assert_eq!(tokens[0].literal(), "ab\ncd");
    assert_eq!(tokens[0].line(), 1);
}

#[test]
fn keyword_var() {
    let (tokens, errors) = scan("var");
    assert_eq!(tokens, vec![token(TokenKind::Var, "var", 1), end(1)]);
    assert!(errors.is_empty());
}

#[test]
fn keyword_match_is_exact_not_a_prefix() {
    let (tokens, errors) = scan("variable");
    assert_eq!(tokens, vec![token(TokenKind::Identifier, "variable", 1), end(1)]);
    assert!(errors.is_empty());
}

#[test]
fn number_with_fraction() {
    let (tokens, errors) = scan("12.5");
    assert_eq!(tokens, vec![literal(TokenKind::Number, "12.5", 1, "12.5"), end(1)]);
    assert!(errors.is_empty());
}

#[test]
fn number_with_trailing_dot() {
    let (tokens, errors) = scan("12.");
    assert_eq!(
        tokens,
        vec![literal(TokenKind::Number, "12", 1, "12"), token(TokenKind::Dot, ".", 1), end(1)]
    );
    assert!(errors.is_empty());
}

#[test]
fn unterminated_string_is_reported_and_scan_completes() {
    let (tokens, errors) = scan("\"abc");
    assert_eq!(errors, vec![ScanError::UnterminatedString(1)]);
    assert_eq!(tokens, vec![end(1)]);
}

#[test]
fn unterminated_string_reports_the_opening_line() {
    let (tokens, errors) = scan("a\n\"bc\nd\n");
    assert_eq!(errors, vec![ScanError::UnterminatedString(2)]);
    assert_eq!(errors[0].line(), 2);
    assert_eq!(tokens, vec![token(TokenKind::Identifier, "a", 1), end(4)]);
}

#[test]
fn unexpected_character_is_reported() {
    let (tokens, errors) = scan("@");
    assert_eq!(errors, vec![ScanError::UnexpectedCharacter('@', 1)]);
    assert_eq!(errors[0].line(), 1);
    assert_eq!(tokens, vec![end(1)]);
}

#[test]
fn scanning_continues_after_an_unexpected_character() {
    let (tokens, errors) = scan("a @ b\n# c");
    assert_eq!(
        errors,
        vec![ScanError::UnexpectedCharacter('@', 1), ScanError::UnexpectedCharacter('#', 2)]
    );
    assert_eq!(
        tokens,
        vec![
            token(TokenKind::Identifier, "a", 1),
            token(TokenKind::Identifier, "b", 1),
            token(TokenKind::Identifier, "c", 2),
            end(2),
        ]
    );
}

#[test]
fn nul_character_is_unexpected() {
    let (tokens, errors) = scan("a\0b");
    assert_eq!(errors, vec![ScanError::UnexpectedCharacter('\0', 1)]);
    assert_eq!(
        tokens,
        vec![token(TokenKind::Identifier, "a", 1), token(TokenKind::Identifier, "b", 1), end(1)]
    );
}

#[test]
fn non_ascii_character_is_unexpected() {
    let (tokens, errors) = scan("é+");
    assert_eq!(errors, vec![ScanError::UnexpectedCharacter('é', 1)]);
    assert_eq!(tokens, vec![token(TokenKind::Plus, "+", 1), end(1)]);
}

#[test]
fn non_ascii_text_inside_strings_and_comments() {
    let (tokens, errors) = scan("\"héllo→\" // çà\nx");
    assert!(errors.is_empty());
    assert_eq!(
        tokens,
        vec![
            literal(TokenKind::String, "\"héllo→\"", 1, "héllo→"),
            token(TokenKind::Identifier, "x", 2),
            end(2),
        ]
    );
}

#[test]
fn single_character_punctuation() {
    let (tokens, errors) = scan("(){},.-+;*/");
    assert!(errors.is_empty());
    assert_eq!(
        tokens,
        vec![
            token(TokenKind::LeftParen, "(", 1),
            token(TokenKind::RightParen, ")", 1),
            token(TokenKind::LeftBrace, "{", 1),
            token(TokenKind::RightBrace, "}", 1),
            token(TokenKind::Comma, ",", 1),
            token(TokenKind::Dot, ".", 1),
            token(TokenKind::Minus, "-", 1),
            token(TokenKind::Plus, "+", 1),
            token(TokenKind::Semicolon, ";", 1),
            token(TokenKind::Star, "*", 1),
            token(TokenKind::Slash, "/", 1),
            end(1),
        ]
    );
}

#[test]
fn one_and_two_character_operators() {
    let (tokens, errors) = scan("! != = == < <= > >=");
    assert!(errors.is_empty());
    assert_eq!(
        tokens,
        vec![
            token(TokenKind::Bang, "!", 1),
            token(TokenKind::BangEqual, "!=", 1),
            token(TokenKind::Equal, "=", 1),
            token(TokenKind::EqualEqual, "==", 1),
            token(TokenKind::Less, "<", 1),
            token(TokenKind::LessEqual, "<=", 1),
            token(TokenKind::Greater, ">", 1),
            token(TokenKind::GreaterEqual, ">=", 1),
            end(1),
        ]
    );
}

#[test]
fn operators_pair_up_from_the_left() {
    let (tokens, errors) = scan("===!");
    assert!(errors.is_empty());
    assert_eq!(
        tokens,
        vec![
            token(TokenKind::EqualEqual, "==", 1),
            token(TokenKind::Equal, "=", 1),
            token(TokenKind::Bang, "!", 1),
            end(1),
        ]
    );
}

#[test]
fn every_keyword() {
    let (tokens, errors) = scan(
        "and class else false for fun if nil or print return super this true var while",
    );
    assert!(errors.is_empty());
    assert_eq!(
        tokens,
        vec![
            token(TokenKind::And, "and", 1),
            token(TokenKind::Class, "class", 1),
            token(TokenKind::Else, "else", 1),
            token(TokenKind::False, "false", 1),
            token(TokenKind::For, "for", 1),
            token(TokenKind::Fun, "fun", 1),
            token(TokenKind::If, "if", 1),
            token(TokenKind::Nil, "nil", 1),
            token(TokenKind::Or, "or", 1),
            token(TokenKind::Print, "print", 1),
            token(TokenKind::Return, "return", 1),
            token(TokenKind::Super, "super", 1),
            token(TokenKind::This, "this", 1),
            token(TokenKind::True, "true", 1),
            token(TokenKind::Var, "var", 1),
            token(TokenKind::While, "while", 1),
            end(1),
        ]
    );
}

#[test]
fn keywords_are_case_sensitive() {
    let (tokens, errors) = scan("Var VAR nil_ _nil");
    assert!(errors.is_empty());
    assert_eq!(
        tokens,
        vec![
            token(TokenKind::Identifier, "Var", 1),
            token(TokenKind::Identifier, "VAR", 1),
            token(TokenKind::Identifier, "nil_", 1),
            token(TokenKind::Identifier, "_nil", 1),
            end(1),
        ]
    );
}

#[test]
fn identifiers_take_letters_digits_and_underscores() {
    let (tokens, errors) = scan("_a1_b2 x9y");
    assert!(errors.is_empty());
    assert_eq!(
        tokens,
        vec![
            token(TokenKind::Identifier, "_a1_b2", 1),
            token(TokenKind::Identifier, "x9y", 1),
            end(1),
        ]
    );
}

#[test]
fn digits_then_letters_are_two_tokens() {
    let (tokens, errors) = scan("12ab");
    assert!(errors.is_empty());
    assert_eq!(
        tokens,
        vec![
            literal(TokenKind::Number, "12", 1, "12"),
            token(TokenKind::Identifier, "ab", 1),
            end(1),
        ]
    );
}

#[test]
fn number_takes_only_one_fraction() {
    let (tokens, errors) = scan("1.2.3");
    assert!(errors.is_empty());
    assert_eq!(
        tokens,
        vec![
            literal(TokenKind::Number, "1.2", 1, "1.2"),
            token(TokenKind::Dot, ".", 1),
            literal(TokenKind::Number, "3", 1, "3"),
            end(1),
        ]
    );
}

#[test]
fn leading_dot_is_not_part_of_a_number() {
    let (tokens, errors) = scan(".5");
    assert!(errors.is_empty());
    assert_eq!(
        tokens,
        vec![token(TokenKind::Dot, ".", 1), literal(TokenKind::Number, "5", 1, "5"), end(1)]
    );
}

#[test]
fn blanks_produce_no_token() {
    let (tokens, errors) = scan(" \t\r\n \t");
    assert!(errors.is_empty());
    assert_eq!(tokens, vec![end(2)]);
}

#[test]
fn comment_runs_to_the_end_of_input() {
    let (tokens, errors) = scan("a // b c @ \"");
    assert!(errors.is_empty());
    assert_eq!(tokens, vec![token(TokenKind::Identifier, "a", 1), end(1)]);
}

#[test]
fn comment_leaves_the_newline_to_be_counted() {
    let (tokens, errors) = scan("//\n//\n/");
    assert!(errors.is_empty());
    assert_eq!(tokens, vec![token(TokenKind::Slash, "/", 3), end(3)]);
}

#[test]
fn empty_string_literal() {
    let (tokens, errors) = scan("\"\"");
    assert!(errors.is_empty());
    assert_eq!(tokens, vec![literal(TokenKind::String, "\"\"", 1, ""), end(1)]);
}

#[test]
fn string_keeps_backslashes_as_they_are() {
    let (tokens, errors) = scan("\"a\\n\"");
    assert!(errors.is_empty());
    assert_eq!(tokens, vec![literal(TokenKind::String, "\"a\\n\"", 1, "a\\n"), end(1)]);
}

#[test]
fn line_numbers_do_not_decrease() {
    let (tokens, errors) = scan("a\n\"x\ny\"\nb // c\n\n1.5 @\n\"");
    assert_eq!(
        errors,
        vec![ScanError::UnexpectedCharacter('@', 6), ScanError::UnterminatedString(7)]
    );
    let lines: Vec<usize> = tokens.iter().map(|t| t.line()).collect();
    assert_eq!(lines, vec![1, 2, 4, 6, 7]);
    for pair in lines.windows(2) {
        assert!(pair[0] <= pair[1]);
    }
}

#[test]
fn end_is_last_and_occurs_once() {
    for source in ["", "a b c", "@@@", "\"open", "1 + 2 // done\n"] {
        let (tokens, _) = scan(source);
        let ends = tokens.iter().filter(|t| t.kind() == TokenKind::End).count();
        assert_eq!(ends, 1);
        assert_eq!(tokens[tokens.len() - 1].kind(), TokenKind::End);
        assert_eq!(tokens[tokens.len() - 1].lexeme(), "");
        assert_eq!(tokens[tokens.len() - 1].literal(), "");
    }
}

#[test]
fn lexemes_and_skipped_text_rebuild_the_source() {
    let source = "var x = 1.5; // note\nprint \"hi\" != x;\n";
    let (tokens, errors) = scan(source);
    assert!(errors.is_empty());
    let mut rest = source;
    let mut skipped = String::new();
    let mut rebuilt = String::new();
    for t in &tokens {
        let at = rest.find(t.lexeme()).unwrap();
        skipped.push_str(&rest[..at]);
        rebuilt.push_str(&rest[..at]);
        rebuilt.push_str(t.lexeme());
        rest = &rest[at + t.lexeme().len()..];
    }
    skipped.push_str(rest);
    rebuilt.push_str(rest);
    assert_eq!(rebuilt, source);
    assert_eq!(skipped, "    // note\n   \n");
}

#[test]
fn a_small_program() {
    let (tokens, errors) = scan("fun f(a) {\n  return a >= 10;\n}\n");
    assert!(errors.is_empty());
    assert_eq!(
        tokens,
        vec![
            token(TokenKind::Fun, "fun", 1),
            token(TokenKind::Identifier, "f", 1),
            token(TokenKind::LeftParen, "(", 1),
            token(TokenKind::Identifier, "a", 1),
            token(TokenKind::RightParen, ")", 1),
            token(TokenKind::LeftBrace, "{", 1),
            token(TokenKind::Return, "return", 2),
            token(TokenKind::Identifier, "a", 2),
            token(TokenKind::GreaterEqual, ">=", 2),
            literal(TokenKind::Number, "10", 2, "10"),
            token(TokenKind::Semicolon, ";", 2),
            token(TokenKind::RightBrace, "}", 3),
            end(4),
        ]
    );
}

#[test]
fn tokens_are_readable_before_they_are_handed_over() {
    let mut scanner = Scanner::new("a".to_string());
    assert!(scanner.tokens().is_empty());
    assert_eq!(scanner.line(), 1);
    let errors = scanner.scan_tokens();
    assert!(errors.is_empty());
    assert_eq!(scanner.tokens().len(), 2);
    assert_eq!(scanner.tokens()[0], token(TokenKind::Identifier, "a", 1));
}

#[test]
fn scanning_again_finds_nothing_but_the_end() {
    let mut scanner = Scanner::new("a\n".to_string());
    let _ = scanner.scan_tokens();
    let errors = scanner.scan_tokens();
    assert!(errors.is_empty());
    assert_eq!(
        scanner.into_tokens(),
        vec![token(TokenKind::Identifier, "a", 1), end(2), end(2)]
    );
}

#[test]
fn token_new_keeps_its_parts() {
    let t = Token::new(TokenKind::Number, "7".to_string(), 3, "7".to_string());
    assert_eq!(t.kind(), TokenKind::Number);
    assert_eq!(t.lexeme(), "7");
    assert_eq!(t.line(), 3);
    assert_eq!(t.literal(), "7");
    assert_eq!(t.clone(), t);
}
