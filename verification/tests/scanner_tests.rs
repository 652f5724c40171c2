use lox_lexer::scanner::{scanner_main, Scanner};
use lox_lexer::token::{Token, TokenType};

fn scan(source: &str) -> Vec<Token> {
    scanner_main(source).tokens
}

#[test]
fn empty_input_yields_only_end_marker() {
    let tokens = scan("");
    assert_eq!(tokens.len(), 1);
    assert_eq!(tokens[0].token_type, TokenType::EOF);
    assert_eq!(tokens[0].lexeme, "");
    assert_eq!(tokens[0].literal, None);
    assert_eq!(tokens[0].line, 1);
}

#[test]
fn every_scan_ends_with_end_marker() {
    for source in ["", "x", "\"open", "1 + 2\n", "@#$", "// only a comment"] {
        let tokens = scan(source);
        assert!(!tokens.is_empty());
        assert_eq!(tokens.last().unwrap().token_type, TokenType::EOF);
        assert_eq!(tokens.last().unwrap().lexeme, "");
    }
}

#[test]
fn lines_never_decrease() {
    let tokens = scan("a\nb \"x\ny\" c\n// tail\nd");
    for pair in tokens.windows(2) {
        assert!(pair[0].line <= pair[1].line);
    }
}

#[test]
fn bang_equal_is_one_token() {
    let tokens = scan("!=");
    assert_eq!(tokens.len(), 2);
    assert_eq!(tokens[0].token_type, TokenType::BANGEQUAL);
    assert_eq!(tokens[0].lexeme, "!=");
    assert_eq!(tokens[1].token_type, TokenType::EOF);
}

#[test]
fn two_character_operators_win_over_single() {
    let tokens = scan("== <= >= +=");
    let kinds: Vec<TokenType> = tokens.iter().map(|t| t.token_type).collect();
    assert_eq!(
        kinds,
        vec![
            TokenType::EQUALEQUAL,
            TokenType::LESSEQUAL,
            TokenType::GREATEREQUAL,
            TokenType::PLUSEQUAL,
            TokenType::EOF,
        ]
    );
}

#[test]
fn single_operators_without_following_equal() {
    let tokens = scan("! = < > +");
    let kinds: Vec<TokenType> = tokens.iter().map(|t| t.token_type).collect();
    assert_eq!(
        kinds,
        vec![
            TokenType::BANG,
            TokenType::EQUAL,
            TokenType::LESS,
            TokenType::GREATER,
            TokenType::PLUS,
            TokenType::EOF,
        ]
    );
}

#[test]
fn punctuation_maps_directly() {
    let tokens = scan("(){},.-;*");
    let kinds: Vec<TokenType> = tokens.iter().map(|t| t.token_type).collect();
    assert_eq!(
        kinds,
        vec![
            TokenType::LEFTPAREN,
            TokenType::RIGHTPAREN,
            TokenType::LEFTBRACE,
            TokenType::RIGHTBRACE,
            TokenType::COMMA,
            TokenType::DOT,
            TokenType::MINUS,
            TokenType::SEMICOLON,
            TokenType::STAR,
            TokenType::EOF,
        ]
    );
}

#[test]
fn trailing_dot_does_not_join_number() {
    let tokens = scan("3.");
    assert_eq!(tokens.len(), 3);
    assert_eq!(tokens[0].token_type, TokenType::NUMBER);
    assert_eq!(tokens[0].lexeme, "3");
    assert_eq!(tokens[0].literal, Some("3".to_string()));
    assert_eq!(tokens[1].token_type, TokenType::DOT);
    assert_eq!(tokens[2].token_type, TokenType::EOF);
}

#[test]
fn decimal_point_joins_when_digit_follows() {
    let tokens = scan("3.5");
    assert_eq!(tokens.len(), 2);
    assert_eq!(tokens[0].token_type, TokenType::NUMBER);
    assert_eq!(tokens[0].lexeme, "3.5");
    assert_eq!(tokens[0].literal, Some("3.5".to_string()));
}

#[test]
fn number_literal_is_exact_consumed_text() {
    let tokens = scan("007 12.50");
    assert_eq!(tokens[0].literal, Some("007".to_string()));
    assert_eq!(tokens[1].literal, Some("12.50".to_string()));
}

#[test]
fn dot_after_fraction_stays_separate() {
    let tokens = scan("1.2.x");
    let kinds: Vec<TokenType> = tokens.iter().map(|t| t.token_type).collect();
    assert_eq!(
        kinds,
        vec![TokenType::NUMBER, TokenType::DOT, TokenType::IDENTIFIER, TokenType::EOF]
    );
    assert_eq!(tokens[0].lexeme, "1.2");
}

#[test]
fn comment_produces_no_token() {
    let tokens = scan("// hi\n+");
    assert_eq!(tokens.len(), 2);
    assert_eq!(tokens[0].token_type, TokenType::PLUS);
    assert_eq!(tokens[0].line, 2);
    assert_eq!(tokens[1].token_type, TokenType::EOF);
}

#[test]
fn comment_at_end_of_input_consumes_rest() {
    let tokens = scan("+// trailing comment");
    assert_eq!(tokens.len(), 2);
    assert_eq!(tokens[0].token_type, TokenType::PLUS);
    assert_eq!(tokens[1].token_type, TokenType::EOF);
}

#[test]
fn lone_slash_is_a_token() {
    let tokens = scan("/");
    assert_eq!(tokens.len(), 2);
    assert_eq!(tokens[0].token_type, TokenType::SLASH);
}

#[test]
fn string_literal_holds_body_between_quotes() {
    let tokens = scan("\"abc\"");
    assert_eq!(tokens.len(), 2);
    assert_eq!(tokens[0].token_type, TokenType::STRING);
    assert_eq!(tokens[0].lexeme, "\"abc\"");
    assert_eq!(tokens[0].literal, Some("abc".to_string()));
}

#[test]
fn empty_string_literal_is_present_not_absent() {
    let tokens = scan("\"\"");
    assert_eq!(tokens[0].token_type, TokenType::STRING);
    assert_eq!(tokens[0].literal, Some(String::new()));
}

#[test]
fn escaped_quote_does_not_close_string() {
    // Five characters: quote, backslash, quote, a, quote.
    let tokens = scan("\"\\\"a\"");
    assert_eq!(tokens.len(), 2);
    assert_eq!(tokens[0].token_type, TokenType::STRING);
    assert_eq!(tokens[0].lexeme, "\"\\\"a\"");
    // The literal keeps the raw text: no escape-sequence decoding.
    assert_eq!(tokens[0].literal, Some("\\\"a".to_string()));
    assert_eq!(tokens[1].token_type, TokenType::EOF);
}

#[test]
fn escaped_backslash_does_not_escape_the_quote() {
    // Four characters: quote, backslash, backslash, quote.
    let tokens = scan("\"\\\\\"");
    assert_eq!(tokens.len(), 2);
    assert_eq!(tokens[0].token_type, TokenType::STRING);
    assert_eq!(tokens[0].literal, Some("\\\\".to_string()));
}

#[test]
fn string_closed_only_by_escaped_quote_is_unterminated() {
    // Three characters: quote, backslash, quote.
    let scanner = scanner_main("\"\\\"");
    assert_eq!(scanner.tokens.len(), 2);
    assert_eq!(scanner.tokens[0].token_type, TokenType::UNKNOWN);
    assert_eq!(scanner.tokens[0].literal, None);
    assert_eq!(scanner.diagnostics, vec![1]);
}

#[test]
fn unterminated_string_degrades_to_unknown() {
    let scanner = scanner_main("\"abc");
    assert_eq!(scanner.tokens.len(), 2);
    assert_eq!(scanner.tokens[0].token_type, TokenType::UNKNOWN);
    assert_eq!(scanner.tokens[0].literal, None);
    assert_eq!(scanner.tokens[1].token_type, TokenType::EOF);
    assert_eq!(scanner.diagnostics, vec![1]);
}

#[test]
fn string_spanning_lines_keeps_opening_line() {
    let scanner = scanner_main("\"a\nb\"+");
    let tokens = &scanner.tokens;
    assert_eq!(tokens[0].token_type, TokenType::STRING);
    assert_eq!(tokens[0].literal, Some("a\nb".to_string()));
    assert_eq!(tokens[0].line, 1);
    assert_eq!(tokens[1].token_type, TokenType::PLUS);
    assert_eq!(tokens[1].line, 2);
    assert!(scanner.diagnostics.is_empty());
}

#[test]
fn unterminated_string_diagnostic_carries_final_line() {
    let scanner = scanner_main("\"a\nb");
    assert_eq!(scanner.tokens[0].token_type, TokenType::UNKNOWN);
    assert_eq!(scanner.tokens[0].line, 1);
    assert_eq!(scanner.diagnostics, vec![2]);
}

#[test]
fn keyword_prefix_scans_as_identifier() {
    let tokens = scan("classy");
    assert_eq!(tokens.len(), 2);
    assert_eq!(tokens[0].token_type, TokenType::IDENTIFIER);
    assert_eq!(tokens[0].lexeme, "classy");
}

#[test]
fn keywords_map_to_their_kinds() {
    let source = "and class else false fun for if nil or print return super this true var while \
                  pub fn mod let mut";
    let tokens = scan(source);
    let kinds: Vec<TokenType> = tokens.iter().map(|t| t.token_type).collect();
    assert_eq!(
        kinds,
        vec![
            TokenType::AND,
            TokenType::CLASS,
            TokenType::ELSE,
            TokenType::FALSE,
            TokenType::FUN,
            TokenType::FOR,
            TokenType::IF,
            TokenType::NIL,
            TokenType::OR,
            TokenType::PRINT,
            TokenType::RETURN,
            TokenType::SUPER,
            TokenType::THIS,
            TokenType::TRUE,
            TokenType::VAR,
            TokenType::WHILE,
            TokenType::PUB,
            TokenType::FN,
            TokenType::MOD,
            TokenType::LET,
            TokenType::MUT,
            TokenType::EOF,
        ]
    );
}

#[test]
fn println_bang_scans_as_print() {
    let tokens = scan("println!(\"hi\")");
    assert_eq!(tokens[0].token_type, TokenType::PRINT);
    assert_eq!(tokens[0].lexeme, "println!");
    assert_eq!(tokens[1].token_type, TokenType::LEFTPAREN);
    assert_eq!(tokens[2].token_type, TokenType::STRING);
}

#[test]
fn println_without_bang_is_identifier() {
    let tokens = scan("println");
    assert_eq!(tokens[0].token_type, TokenType::IDENTIFIER);
    assert_eq!(tokens[0].lexeme, "println");
}

#[test]
fn unrecognized_character_becomes_unknown() {
    let tokens = scan("@");
    assert_eq!(tokens.len(), 2);
    assert_eq!(tokens[0].token_type, TokenType::UNKNOWN);
    assert_eq!(tokens[0].lexeme, "@");
    assert_eq!(tokens[0].literal, None);
}

#[test]
fn whitespace_is_skipped_silently() {
    let tokens = scan(" \t\r+ ");
    assert_eq!(tokens.len(), 2);
    assert_eq!(tokens[0].token_type, TokenType::PLUS);
}

#[test]
fn newlines_advance_the_line_counter() {
    let tokens = scan("\n\nvar");
    assert_eq!(tokens[0].token_type, TokenType::VAR);
    assert_eq!(tokens[0].line, 3);
    assert_eq!(tokens[1].token_type, TokenType::EOF);
    assert_eq!(tokens[1].line, 3);
}

#[test]
fn digits_then_letters_split_into_two_tokens() {
    let tokens = scan("123abc");
    assert_eq!(tokens[0].token_type, TokenType::NUMBER);
    assert_eq!(tokens[0].lexeme, "123");
    assert_eq!(tokens[1].token_type, TokenType::IDENTIFIER);
    assert_eq!(tokens[1].lexeme, "abc");
}

#[test]
fn underscore_starts_an_identifier() {
    let tokens = scan("_x1");
    assert_eq!(tokens[0].token_type, TokenType::IDENTIFIER);
    assert_eq!(tokens[0].lexeme, "_x1");
}

#[test]
fn scanning_resumes_after_unknown_token() {
    let tokens = scan("#var");
    assert_eq!(tokens[0].token_type, TokenType::UNKNOWN);
    assert_eq!(tokens[1].token_type, TokenType::VAR);
}

#[test]
fn non_literal_tokens_carry_no_payload() {
    let tokens = scan("( var classy <=");
    for token in &tokens {
        assert_eq!(token.literal, None);
    }
}

#[test]
fn scanner_state_is_per_call() {
    let first = scan("var");
    let second = scan("var");
    assert_eq!(first.len(), second.len());
    assert_eq!(first[0].token_type, second[0].token_type);
}

#[test]
fn incremental_scan_matches_whole_scan() {
    let mut scanner = Scanner::new("a + b");
    scanner.scan_tokens();
    let whole = scan("a + b");
    assert_eq!(scanner.tokens.len(), whole.len());
    for (got, want) in scanner.tokens.iter().zip(whole.iter()) {
        assert_eq!(got.token_type, want.token_type);
        assert_eq!(got.lexeme, want.lexeme);
    }
}
