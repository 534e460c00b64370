use lox::scanner::{number_literals, Scanner, Token, TokenType};

/// All tokens of a source up to and including the end token.
fn tokens(source: &str) -> Vec<Token> {
    let text = source.to_string();
    let mut scanner = Scanner::new();
    let mut found = Vec::new();
    loop {
        let token = scanner.scan_token(&text);
        found.push(token);
        if token.token_type == TokenType::EOF {
            return found;
        }
    }
}

fn kinds(source: &str) -> Vec<TokenType> {
    tokens(source).iter().map(|token| token.token_type).collect()
}

fn token(token_type: TokenType, start: usize, length: usize, line: usize) -> Token {
    Token { token_type, start, length, line }
}

#[test]
fn empty_source_is_one_end_token() {
    assert_eq!(tokens(""), vec![token(TokenType::EOF, 0, 0, 1)]);
}

#[test]
fn end_token_repeats() {
    let text = "+".to_string();
    let mut scanner = Scanner::new();
    assert_eq!(scanner.scan_token(&text), token(TokenType::Plus, 0, 1, 1));
    assert_eq!(scanner.scan_token(&text), token(TokenType::EOF, 1, 0, 1));
    assert_eq!(scanner.scan_token(&text), token(TokenType::EOF, 1, 0, 1));
}

#[test]
fn scans_single_character_tokens() {
    assert_eq!(
        kinds("(){},.;-+/*"),
        vec![
            TokenType::LeftParen,
            TokenType::RightParen,
            TokenType::LeftBrace,
            TokenType::RightBrace,
            TokenType::Comma,
            TokenType::Dot,
            TokenType::Semicolon,
            TokenType::Minus,
            TokenType::Plus,
            TokenType::Slash,
            TokenType::Star,
            TokenType::EOF,
        ]
    );
}

#[test]
fn scans_one_and_two_character_operators() {
    assert_eq!(
        tokens("! != = == < <= > >="),
        vec![
            token(TokenType::Bang, 0, 1, 1),
            token(TokenType::BangEqual, 2, 2, 1),
            token(TokenType::Equal, 5, 1, 1),
            token(TokenType::EqualEqual, 7, 2, 1),
            token(TokenType::Less, 10, 1, 1),
            token(TokenType::LessEqual, 12, 2, 1),
            token(TokenType::Greater, 15, 1, 1),
            token(TokenType::GreaterEqual, 17, 2, 1),
            token(TokenType::EOF, 19, 0, 1),
        ]
    );
}

#[test]
fn operator_at_end_of_source_is_short() {
    assert_eq!(kinds("!"), vec![TokenType::Bang, TokenType::EOF]);
    assert_eq!(kinds("==="), vec![TokenType::EqualEqual, TokenType::Equal, TokenType::EOF]);
}

#[test]
fn scans_every_keyword() {
    assert_eq!(
        kinds("and class else false for fun if nil or print return super this true var while"),
        vec![
            TokenType::And,
            TokenType::Class,
            TokenType::Else,
            TokenType::False,
            TokenType::For,
            TokenType::Fun,
            TokenType::If,
            TokenType::Nil,
            TokenType::Or,
            TokenType::Print,
            TokenType::Return,
            TokenType::Super,
            TokenType::This,
            TokenType::True,
            TokenType::Var,
            TokenType::While,
            TokenType::EOF,
        ]
    );
}

#[test]
fn words_that_only_start_like_keywords_are_identifiers() {
    for word in [
        "a", "an", "andy", "c", "classy", "f", "fa", "fo", "fu", "fort", "funny", "i", "iff",
        "n", "nile", "o", "orb", "p", "prints", "r", "returned", "s", "t", "th", "tr", "thistle",
        "truer", "v", "va", "vary", "w", "whiles", "x", "And", "PRINT",
    ] {
        assert_eq!(
            tokens(word),
            vec![
                token(TokenType::Identifier, 0, word.len(), 1),
                token(TokenType::EOF, word.len(), 0, 1),
            ],
            "{}",
            word
        );
    }
}

#[test]
fn identifiers_take_letters_and_digits() {
    assert_eq!(
        tokens("abc123 x"),
        vec![
            token(TokenType::Identifier, 0, 6, 1),
            token(TokenType::Identifier, 7, 1, 1),
            token(TokenType::EOF, 8, 0, 1),
        ]
    );
}

#[test]
fn identifiers_go_on_with_letters_of_any_script() {
    // Positions count characters, not bytes.
    assert_eq!(
        tokens("a\u{e9}\u{3b2}1+"),
        vec![
            token(TokenType::Identifier, 0, 4, 1),
            token(TokenType::Plus, 4, 1, 1),
            token(TokenType::EOF, 5, 0, 1),
        ]
    );
}

#[test]
fn identifiers_start_with_an_ascii_letter_only() {
    assert_eq!(
        tokens("\u{e9}"),
        vec![token(TokenType::Error, 0, 21, 1), token(TokenType::EOF, 1, 0, 1)]
    );
    assert_eq!(
        tokens("_a"),
        vec![
            token(TokenType::Error, 0, 21, 1),
            token(TokenType::Identifier, 1, 1, 1),
            token(TokenType::EOF, 2, 0, 1),
        ]
    );
}

#[test]
fn underscore_ends_an_identifier() {
    assert_eq!(
        kinds("a_b"),
        vec![TokenType::Identifier, TokenType::Error, TokenType::Identifier, TokenType::EOF]
    );
}

#[test]
fn scans_numbers_with_and_without_fraction() {
    assert_eq!(
        tokens("12 3.25"),
        vec![
            token(TokenType::Number, 0, 2, 1),
            token(TokenType::Number, 3, 4, 1),
            token(TokenType::EOF, 7, 0, 1),
        ]
    );
}

#[test]
fn dot_without_digit_is_not_part_of_a_number() {
    assert_eq!(
        tokens("1."),
        vec![
            token(TokenType::Number, 0, 1, 1),
            token(TokenType::Dot, 1, 1, 1),
            token(TokenType::EOF, 2, 0, 1),
        ]
    );
    assert_eq!(
        kinds("1.x"),
        vec![TokenType::Number, TokenType::Dot, TokenType::Identifier, TokenType::EOF]
    );
    assert_eq!(kinds(".5"), vec![TokenType::Dot, TokenType::Number, TokenType::EOF]);
    assert_eq!(
        kinds("1.2.3"),
        vec![TokenType::Number, TokenType::Dot, TokenType::Number, TokenType::EOF]
    );
}

#[test]
fn scans_strings_with_their_quotes() {
    assert_eq!(
        tokens("\"hi\" \"\""),
        vec![
            token(TokenType::String, 0, 4, 1),
            token(TokenType::String, 5, 2, 1),
            token(TokenType::EOF, 7, 0, 1),
        ]
    );
}

#[test]
fn string_over_several_lines_counts_them() {
    assert_eq!(
        tokens("\"a\nb\n\" x"),
        vec![
            token(TokenType::String, 0, 6, 3),
            token(TokenType::Identifier, 7, 1, 3),
            token(TokenType::EOF, 8, 0, 3),
        ]
    );
}

#[test]
fn unterminated_string_is_an_error_token() {
    assert_eq!(
        tokens("\"abc"),
        vec![token(TokenType::Error, 0, 20, 1), token(TokenType::EOF, 4, 0, 1)]
    );
    assert_eq!(
        tokens("x \"a\nb"),
        vec![
            token(TokenType::Identifier, 0, 1, 1),
            token(TokenType::Error, 0, 20, 2),
            token(TokenType::EOF, 6, 0, 2),
        ]
    );
}

#[test]
fn unexpected_character_is_an_error_token() {
    assert_eq!(
        tokens("@;"),
        vec![
            token(TokenType::Error, 0, 21, 1),
            token(TokenType::Semicolon, 1, 1, 1),
            token(TokenType::EOF, 2, 0, 1),
        ]
    );
    assert_eq!(kinds("\0"), vec![TokenType::Error, TokenType::EOF]);
}

#[test]
fn skips_blanks_and_counts_lines() {
    assert_eq!(
        tokens(" \t\r\n\n  print"),
        vec![token(TokenType::Print, 7, 5, 3), token(TokenType::EOF, 12, 0, 3)]
    );
}

#[test]
fn skips_comments_to_the_end_of_the_line() {
    assert_eq!(
        tokens("// one\nvar // two\n// three"),
        vec![token(TokenType::Var, 7, 3, 2), token(TokenType::EOF, 26, 0, 3)]
    );
    assert_eq!(tokens("//"), vec![token(TokenType::EOF, 2, 0, 1)]);
}

#[test]
fn single_slash_is_a_token() {
    assert_eq!(tokens("/"), vec![token(TokenType::Slash, 0, 1, 1), token(TokenType::EOF, 1, 0, 1)]);
    assert_eq!(
        kinds("a / b"),
        vec![TokenType::Identifier, TokenType::Slash, TokenType::Identifier, TokenType::EOF]
    );
    assert_eq!(kinds("/ /"), vec![TokenType::Slash, TokenType::Slash, TokenType::EOF]);
}

#[test]
fn scanner_moves_forward_on_every_token() {
    let source = "var x = (1 + 2.5) * \"s\"; // done\n{ print !x >= nil; } @ \"open";
    let found = tokens(source);
    let count = source.chars().count();
    assert_eq!(found.last().unwrap().token_type, TokenType::EOF);
    assert_eq!(found.last().unwrap().start, count);
    let mut previous_end = 0;
    for token in &found {
        if token.token_type != TokenType::Error {
            assert!(token.start >= previous_end);
            assert!(token.start + token.length <= count);
            previous_end = token.start + token.length;
        }
    }
}

#[test]
fn collects_number_literals_in_order() {
    let texts = number_literals(&"var a = 1 + 2.5 * x3; print \"4\" + 10.; // 7\n8".to_string());
    assert_eq!(texts, vec!["1", "2.5", "10", "8"]);
}

#[test]
fn source_without_numbers_has_no_number_literals() {
    assert!(number_literals(&"print \"1\" + a1;".to_string()).is_empty());
    assert!(number_literals(&String::new()).is_empty());
}
