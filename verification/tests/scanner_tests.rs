use rlox::scanner::{DiagnosticKind, ScanResult, Scanner};
use rlox::tokens::TokenType;

fn scan(src: &str) -> ScanResult {
    let mut scanner = Scanner::create(src.to_string());
    scanner.scan_tokens()
}

#[test]
fn empty_input_yields_exactly_one_eof() {
    let r = scan("");
    assert_eq!(r.tokens.len(), 1);
    assert_eq!(r.tokens[0].token_type, TokenType::Eof);
    assert_eq!(r.tokens[0].lexeme, "");
    assert_eq!(r.tokens[0].line, 1);
    assert!(r.diagnostics.is_empty());
}

#[test]
fn eof_is_always_last_and_unique() {
    for src in ["", "123", "\"abc", "@#\n%", "var x = 1; // done"] {
        let r = scan(src);
        let last = r.tokens.last().expect("stream never empty");
        assert_eq!(last.token_type, TokenType::Eof);
        let eof_count = r
            .tokens
            .iter()
            .filter(|t| t.token_type == TokenType::Eof)
            .count();
        assert_eq!(eof_count, 1);
    }
}

#[test]
fn number_scans_to_single_number_token() {
    let r = scan("123");
    assert_eq!(r.tokens.len(), 2);
    assert_eq!(r.tokens[0].token_type, TokenType::Number);
    assert_eq!(r.tokens[0].lexeme, "123");
    assert_eq!(r.tokens[0].line, 1);
    assert!(r.diagnostics.is_empty());
}

#[test]
fn bang_equal_is_one_token_not_two() {
    let r = scan("!=");
    assert_eq!(r.tokens.len(), 2);
    assert_eq!(r.tokens[0].token_type, TokenType::BangEqual);
    assert_eq!(r.tokens[0].lexeme, "!=");
}

#[test]
fn comment_is_discarded_and_line_counted() {
    let r = scan("// comment\n123");
    assert_eq!(r.tokens.len(), 2);
    assert_eq!(r.tokens[0].token_type, TokenType::Number);
    assert_eq!(r.tokens[0].lexeme, "123");
    assert_eq!(r.tokens[0].line, 2);
    assert_eq!(r.tokens[1].token_type, TokenType::Eof);
    assert_eq!(r.tokens[1].line, 2);
    assert!(r.diagnostics.is_empty());
}

#[test]
fn keyword_prefix_scans_as_one_identifier() {
    let r = scan("classy");
    assert_eq!(r.tokens.len(), 2);
    assert_eq!(r.tokens[0].token_type, TokenType::Identifier);
    assert_eq!(r.tokens[0].lexeme, "classy");
}

#[test]
fn unterminated_string_yields_a_diagnostic_not_a_token() {
    let r = scan("\"abc");
    assert_eq!(r.tokens.len(), 1);
    assert_eq!(r.tokens[0].token_type, TokenType::Eof);
    assert!(!r.diagnostics.is_empty());
    assert_eq!(r.diagnostics[0].line, 1);
    assert_eq!(r.diagnostics[0].kind, DiagnosticKind::UnterminatedString);
}

#[test]
fn all_sixteen_keywords_are_recognized() {
    let src = "and class else false for fun if nil or print return super this true var while";
    let expected = [
        TokenType::And,
        TokenType::Class,
        TokenType::Else,
        TokenType::False,
        TokenType::For,
        TokenType::Fun,
        TokenType::If,
        TokenType::Nil,
        TokenType::Or,
        TokenType::Print,
        TokenType::Return,
        TokenType::Super,
        TokenType::This,
        TokenType::True,
        TokenType::Var,
        TokenType::While,
    ];
    let r = scan(src);
    assert_eq!(r.tokens.len(), expected.len() + 1);
    for (tok, want) in r.tokens.iter().zip(expected.iter()) {
        assert_eq!(tok.token_type, *want);
    }
}

#[test]
fn punctuation_scans_one_token_per_character() {
    let r = scan("(){},.-+;*");
    let expected = [
        TokenType::LeftParen,
        TokenType::RightParen,
        TokenType::LeftBrace,
        TokenType::RightBrace,
        TokenType::Comma,
        TokenType::Dot,
        TokenType::Minus,
        TokenType::Plus,
        TokenType::SemiColon,
        TokenType::Star,
        TokenType::Eof,
    ];
    assert_eq!(r.tokens.len(), expected.len());
    for (tok, want) in r.tokens.iter().zip(expected.iter()) {
        assert_eq!(tok.token_type, *want);
    }
}

#[test]
fn operators_resolve_with_one_lookahead() {
    let r = scan("! = < > == != <= >=");
    let expected = [
        TokenType::Bang,
        TokenType::Equal,
        TokenType::Less,
        TokenType::Greater,
        TokenType::EqualEqual,
        TokenType::BangEqual,
        TokenType::LessEqual,
        TokenType::GreaterEqual,
        TokenType::Eof,
    ];
    assert_eq!(r.tokens.len(), expected.len());
    for (tok, want) in r.tokens.iter().zip(expected.iter()) {
        assert_eq!(tok.token_type, *want);
    }
}

#[test]
fn lookahead_operator_at_end_of_input_stays_single() {
    let r = scan("<");
    assert_eq!(r.tokens.len(), 2);
    assert_eq!(r.tokens[0].token_type, TokenType::Less);
    assert_eq!(r.tokens[0].lexeme, "<");
}

#[test]
fn lone_slash_is_a_token() {
    let r = scan("8/2");
    let kinds: Vec<TokenType> = r.tokens.iter().map(|t| t.token_type).collect();
    assert_eq!(
        kinds,
        vec![
            TokenType::Number,
            TokenType::Slash,
            TokenType::Number,
            TokenType::Eof
        ]
    );
}

#[test]
fn comment_at_end_of_input_is_discarded() {
    let r = scan("1 // no newline after this");
    assert_eq!(r.tokens.len(), 2);
    assert_eq!(r.tokens[0].token_type, TokenType::Number);
    assert!(r.diagnostics.is_empty());
}

#[test]
fn fractional_number_is_one_lexeme() {
    let r = scan("45.67");
    assert_eq!(r.tokens.len(), 2);
    assert_eq!(r.tokens[0].token_type, TokenType::Number);
    assert_eq!(r.tokens[0].lexeme, "45.67");
}

#[test]
fn trailing_dot_is_not_absorbed_into_number() {
    let r = scan("123.");
    let kinds: Vec<TokenType> = r.tokens.iter().map(|t| t.token_type).collect();
    assert_eq!(kinds, vec![TokenType::Number, TokenType::Dot, TokenType::Eof]);
    assert_eq!(r.tokens[0].lexeme, "123");
}

#[test]
fn dot_followed_by_digits_after_number_is_fraction() {
    let r = scan("1.5.x");
    let kinds: Vec<TokenType> = r.tokens.iter().map(|t| t.token_type).collect();
    assert_eq!(
        kinds,
        vec![
            TokenType::Number,
            TokenType::Dot,
            TokenType::Identifier,
            TokenType::Eof
        ]
    );
    assert_eq!(r.tokens[0].lexeme, "1.5");
}

#[test]
fn string_lexeme_keeps_both_quotes() {
    let r = scan("\"hi\"");
    assert_eq!(r.tokens.len(), 2);
    assert_eq!(r.tokens[0].token_type, TokenType::String);
    assert_eq!(r.tokens[0].lexeme, "\"hi\"");
    assert_eq!(r.tokens[0].line, 1);
}

#[test]
fn multiline_string_starts_on_its_first_line() {
    let r = scan("\"a\nb\"x");
    assert_eq!(r.tokens.len(), 3);
    assert_eq!(r.tokens[0].token_type, TokenType::String);
    assert_eq!(r.tokens[0].lexeme, "\"a\nb\"");
    assert_eq!(r.tokens[0].line, 1);
    assert_eq!(r.tokens[1].token_type, TokenType::Identifier);
    assert_eq!(r.tokens[1].line, 2);
    assert_eq!(r.tokens[2].line, 2);
}

#[test]
fn whitespace_is_discarded_without_tokens() {
    let r = scan(" \t\r x");
    assert_eq!(r.tokens.len(), 2);
    assert_eq!(r.tokens[0].token_type, TokenType::Identifier);
    assert_eq!(r.tokens[0].lexeme, "x");
}

#[test]
fn newlines_advance_the_line_counter() {
    let r = scan("a\nb\n\nc");
    assert_eq!(r.tokens[0].line, 1);
    assert_eq!(r.tokens[1].line, 2);
    assert_eq!(r.tokens[2].line, 4);
    assert_eq!(r.tokens[3].line, 4);
}

#[test]
fn unexpected_character_is_reported_and_skipped() {
    let r = scan("@1");
    assert_eq!(r.diagnostics.len(), 1);
    assert_eq!(r.diagnostics[0].line, 1);
    assert_eq!(
        r.diagnostics[0].kind,
        DiagnosticKind::UnexpectedCharacter('@')
    );
    let kinds: Vec<TokenType> = r.tokens.iter().map(|t| t.token_type).collect();
    assert_eq!(kinds, vec![TokenType::Number, TokenType::Eof]);
}

#[test]
fn several_bad_characters_all_reported() {
    let r = scan("#\n%");
    assert_eq!(r.diagnostics.len(), 2);
    assert_eq!(r.diagnostics[0].line, 1);
    assert_eq!(r.diagnostics[1].line, 2);
}

#[test]
fn identifier_may_contain_digits_after_a_letter() {
    let r = scan("x2y");
    assert_eq!(r.tokens.len(), 2);
    assert_eq!(r.tokens[0].token_type, TokenType::Identifier);
    assert_eq!(r.tokens[0].lexeme, "x2y");
}

#[test]
fn scanning_is_deterministic_for_the_same_input() {
    let a = scan("var answer = 42; // say it");
    let b = scan("var answer = 42; // say it");
    assert_eq!(a.tokens.len(), b.tokens.len());
    for (x, y) in a.tokens.iter().zip(b.tokens.iter()) {
        assert_eq!(x.token_type, y.token_type);
        assert_eq!(x.lexeme, y.lexeme);
        assert_eq!(x.line, y.line);
    }
    assert_eq!(a.diagnostics, b.diagnostics);
}

#[test]
fn mixed_statement_scans_in_order() {
    let r = scan("var pi = 3.14;");
    let kinds: Vec<TokenType> = r.tokens.iter().map(|t| t.token_type).collect();
    assert_eq!(
        kinds,
        vec![
            TokenType::Var,
            TokenType::Identifier,
            TokenType::Equal,
            TokenType::Number,
            TokenType::SemiColon,
            TokenType::Eof
        ]
    );
    assert_eq!(r.tokens[3].lexeme, "3.14");
}
