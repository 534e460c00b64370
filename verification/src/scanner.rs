//! The scanner: from source text to tokens, one at a time.
//!
//! `scan` says what the next token at a cursor is; `Scanner::scan_token`
//! computes it. Positions count characters.

use vstd::prelude::*;
use vstd::string::*;
use crate::text::{slice, slice_text};

verus! {

/// The kinds of token.
#[derive(Debug, Clone, Copy, PartialEq, Eq, Structural)]
pub enum TokenType {
    LeftParen,
    RightParen,
    LeftBrace,
    RightBrace,
    Comma,
    Dot,
    Minus,
    Plus,
    Semicolon,
    Slash,
    Star,
    Bang,
    BangEqual,
    Equal,
    EqualEqual,
    Greater,
    GreaterEqual,
    Less,
    LessEqual,
    Identifier,
    String,
    Number,
    And,
    Class,
    Else,
    False,
    For,
    Fun,
    If,
    Nil,
    Or,
    Print,
    Return,
    Super,
    This,
    True,
    Var,
    While,
    Error,
    EOF,
}

/// A token: its kind, where its text starts in the source and how many
/// characters it has, and the line it ends on. An `Error` token has start 0
/// and the length of its message.
#[derive(Debug, Clone, Copy, PartialEq, Eq, Structural)]
pub struct Token {
    pub token_type: TokenType,
    pub start: usize,
    pub length: usize,
    pub line: usize,
}

/// The text of a token in its source.
pub open spec fn lexeme(src: Seq<char>, token: Token) -> Seq<char> {
    slice(src, token.start as int, token.start + token.length)
}

/// Where the scanner stands: the start of the token it scans, the next
/// character to read, and the current line.
pub struct Cursor {
    pub start: nat,
    pub current: nat,
    pub line: nat,
}

/// Whether `char::is_alphanumeric` holds of the character: whether Unicode
/// counts it as a letter or a number.
pub uninterp spec fn alphanumeric(c: char) -> bool;

/// Calls `char::is_alphanumeric` of the standard library, which tells whether
/// the character has the Unicode property Alphabetic or is in one of the
/// Unicode number categories. The answer depends on the character alone.
#[verifier::external_body]
fn is_alphanumeric(c: char) -> (b: bool)
    ensures
        b == alphanumeric(c),
{
    c.is_alphanumeric()
}

/// Whether the character is a decimal digit.
pub open spec fn is_digit(c: char) -> bool {
    '0' <= c <= '9'
}

/// Whether an identifier can start with the character.
pub open spec fn is_letter(c: char) -> bool {
    'a' <= c <= 'z' || 'A' <= c <= 'Z'
}

/// The line after `line`; the count stops at the largest number.
pub open spec fn next_line(line: nat) -> nat {
    if line < usize::MAX {
        line + 1
    } else {
        line
    }
}

/// The character at `index`, or NUL behind the end of the source.
pub open spec fn char_at(src: Seq<char>, index: nat) -> char {
    if index < src.len() {
        src[index as int]
    } else {
        '\0'
    }
}

/// The first index at or behind `from` whose character `keep` rejects, or the
/// length of the source if it rejects none.
pub open spec fn span_end(src: Seq<char>, from: nat, keep: spec_fn(char) -> bool) -> nat
    decreases src.len() - from,
{
    if from < src.len() && keep(src[from as int]) {
        span_end(src, from + 1, keep)
    } else {
        from
    }
}

/// The line reached from `line` after the characters from `from` up to `to`.
pub open spec fn line_after(src: Seq<char>, from: nat, to: nat, line: nat) -> nat
    decreases to - from,
{
    if from < to && from < src.len() {
        line_after(
            src,
            from + 1,
            to,
            if src[from as int] == '\n' {
                next_line(line)
            } else {
                line
            },
        )
    } else {
        line
    }
}

/// Where a span ends, and what lies in it.
pub proof fn lemma_span_end(src: Seq<char>, from: nat, keep: spec_fn(char) -> bool)
    ensures
        from <= span_end(src, from, keep),
        from <= src.len() ==> span_end(src, from, keep) <= src.len(),
        from >= src.len() ==> span_end(src, from, keep) == from,
        span_end(src, from, keep) < src.len() ==> !keep(src[span_end(src, from, keep) as int]),
        forall|i: int| from <= i < span_end(src, from, keep) ==> keep(#[trigger] src[i]),
    decreases src.len() - from,
{
    if from < src.len() && keep(src[from as int]) {
        lemma_span_end(src, from + 1, keep);
    }
}

/// Characters of a comment: all but the line end.
pub open spec fn in_comment() -> spec_fn(char) -> bool {
    |c: char| c != '\n'
}

/// Characters inside a string: all but the quote.
pub open spec fn in_string() -> spec_fn(char) -> bool {
    |c: char| c != '"'
}

/// Characters of a number: the digits.
pub open spec fn in_number() -> spec_fn(char) -> bool {
    |c: char| is_digit(c)
}

/// Characters that go on a word: letters and numbers.
pub open spec fn in_word() -> spec_fn(char) -> bool {
    |c: char| alphanumeric(c)
}

/// The cursor behind blanks, line ends and comments. A comment starts with two
/// slashes and runs up to the end of its line.
pub open spec fn skip_blanks(src: Seq<char>, c: Cursor) -> Cursor
    decreases src.len() - c.current,
{
    if c.current >= src.len() {
        c
    } else {
        let ch = src[c.current as int];
        if ch == ' ' || ch == '\r' || ch == '\t' {
            skip_blanks(src, Cursor { current: c.current + 1, ..c })
        } else if ch == '\n' {
            skip_blanks(src, Cursor { current: c.current + 1, line: next_line(c.line), ..c })
        } else if ch == '/' && char_at(src, c.current + 1) == '/' {
            proof {
                lemma_span_end(src, c.current + 2, in_comment());
            }
            skip_blanks(src, Cursor { current: span_end(src, c.current + 2, in_comment()), ..c })
        } else {
            c
        }
    }
}

/// The token of the given kind that ends at the cursor.
pub open spec fn token_at(c: Cursor, kind: TokenType) -> Token {
    Token {
        token_type: kind,
        start: c.start as usize,
        length: (c.current - c.start) as usize,
        line: c.line as usize,
    }
}

/// The token that reports an error: it holds the length of the message.
pub open spec fn error_at(c: Cursor, message: Seq<char>) -> Token {
    Token {
        token_type: TokenType::Error,
        start: 0,
        length: message.len() as usize,
        line: c.line as usize,
    }
}

/// The kind of a word: that of the keyword it is, else `Identifier`.
pub open spec fn keyword(word: Seq<char>) -> TokenType {
    if word == "and"@ {
        TokenType::And
    } else if word == "class"@ {
        TokenType::Class
    } else if word == "else"@ {
        TokenType::Else
    } else if word == "false"@ {
        TokenType::False
    } else if word == "for"@ {
        TokenType::For
    } else if word == "fun"@ {
        TokenType::Fun
    } else if word == "if"@ {
        TokenType::If
    } else if word == "nil"@ {
        TokenType::Nil
    } else if word == "or"@ {
        TokenType::Or
    } else if word == "print"@ {
        TokenType::Print
    } else if word == "return"@ {
        TokenType::Return
    } else if word == "super"@ {
        TokenType::Super
    } else if word == "this"@ {
        TokenType::This
    } else if word == "true"@ {
        TokenType::True
    } else if word == "var"@ {
        TokenType::Var
    } else if word == "while"@ {
        TokenType::While
    } else {
        TokenType::Identifier
    }
}

/// A token of one character, or of two where `=` follows.
pub open spec fn with_equal(src: Seq<char>, c: Cursor, long: TokenType, short: TokenType) -> (
    Token,
    Cursor,
) {
    if char_at(src, c.current) == '=' && c.current < src.len() {
        let end = Cursor { current: c.current + 1, ..c };
        (token_at(end, long), end)
    } else {
        (token_at(c, short), c)
    }
}

/// A string literal, the cursor standing behind its opening quote. It may run
/// over several lines. Without a closing quote it is an error.
pub open spec fn string_from(src: Seq<char>, c: Cursor) -> (Token, Cursor) {
    let close = span_end(src, c.current, in_string());
    let line = line_after(src, c.current, close, c.line);
    if close >= src.len() {
        let end = Cursor { current: close, line, ..c };
        (error_at(end, "Unterminated string."@), end)
    } else {
        let end = Cursor { current: close + 1, line, ..c };
        (token_at(end, TokenType::String), end)
    }
}

/// A number literal, the cursor standing behind its first digit: digits, then
/// if a dot and a digit follow, the dot and the digits behind it.
pub open spec fn number_from(src: Seq<char>, c: Cursor) -> (Token, Cursor) {
    let whole = span_end(src, c.current, in_number());
    let end = if char_at(src, whole) == '.' && is_digit(char_at(src, whole + 1)) {
        span_end(src, whole + 1, in_number())
    } else {
        whole
    };
    let done = Cursor { current: end, ..c };
    (token_at(done, TokenType::Number), done)
}

/// A word, the cursor standing behind its first letter.
pub open spec fn word_from(src: Seq<char>, c: Cursor) -> (Token, Cursor) {
    let end = span_end(src, c.current, in_word());
    let done = Cursor { current: end, ..c };
    (token_at(done, keyword(slice(src, c.start as int, end as int))), done)
}

/// The next token of the source and the cursor behind it.
pub open spec fn scan(src: Seq<char>, c: Cursor) -> (Token, Cursor) {
    let skipped = skip_blanks(src, c);
    let begun = Cursor { start: skipped.current, ..skipped };
    if begun.current >= src.len() {
        (token_at(begun, TokenType::EOF), begun)
    } else {
        let ch = src[begun.current as int];
        let one = Cursor { current: begun.current + 1, ..begun };
        if ch == '(' {
            (token_at(one, TokenType::LeftParen), one)
        } else if ch == ')' {
            (token_at(one, TokenType::RightParen), one)
        } else if ch == '{' {
            (token_at(one, TokenType::LeftBrace), one)
        } else if ch == '}' {
            (token_at(one, TokenType::RightBrace), one)
        } else if ch == ';' {
            (token_at(one, TokenType::Semicolon), one)
        } else if ch == ',' {
            (token_at(one, TokenType::Comma), one)
        } else if ch == '.' {
            (token_at(one, TokenType::Dot), one)
        } else if ch == '-' {
            (token_at(one, TokenType::Minus), one)
        } else if ch == '+' {
            (token_at(one, TokenType::Plus), one)
        } else if ch == '/' {
            (token_at(one, TokenType::Slash), one)
        } else if ch == '*' {
            (token_at(one, TokenType::Star), one)
        } else if ch == '!' {
            with_equal(src, one, TokenType::BangEqual, TokenType::Bang)
        } else if ch == '=' {
            with_equal(src, one, TokenType::EqualEqual, TokenType::Equal)
        } else if ch == '<' {
            with_equal(src, one, TokenType::LessEqual, TokenType::Less)
        } else if ch == '>' {
            with_equal(src, one, TokenType::GreaterEqual, TokenType::Greater)
        } else if ch == '"' {
            string_from(src, one)
        } else if is_digit(ch) {
            number_from(src, one)
        } else if is_letter(ch) {
            word_from(src, one)
        } else {
            (error_at(one, "Unexpected character."@), one)
        }
    }
}

/// Skipping blanks moves forward and stays inside the source.
proof fn lemma_skip_blanks(src: Seq<char>, c: Cursor)
    ensures
        skip_blanks(src, c).current >= c.current,
        c.current <= src.len() ==> skip_blanks(src, c).current <= src.len(),
        skip_blanks(src, c).start == c.start,
        c.line <= usize::MAX ==> skip_blanks(src, c).line <= usize::MAX,
    decreases src.len() - c.current,
{
    if c.current < src.len() {
        let ch = src[c.current as int];
        if ch == ' ' || ch == '\r' || ch == '\t' {
            lemma_skip_blanks(src, Cursor { current: c.current + 1, ..c });
        } else if ch == '\n' {
            lemma_skip_blanks(
                src,
                Cursor { current: c.current + 1, line: next_line(c.line), ..c },
            );
        } else if ch == '/' && char_at(src, c.current + 1) == '/' {
            lemma_span_end(src, c.current + 2, in_comment());
            lemma_skip_blanks(
                src,
                Cursor { current: span_end(src, c.current + 2, in_comment()), ..c },
            );
        }
    }
}

/// The line count stays within the largest number.
proof fn lemma_line_after(src: Seq<char>, from: nat, to: nat, line: nat)
    requires
        line <= usize::MAX,
    ensures
        line_after(src, from, to, line) <= usize::MAX,
    decreases to - from,
{
    if from < to && from < src.len() {
        lemma_line_after(
            src,
            from + 1,
            to,
            if src[from as int] == '\n' {
                next_line(line)
            } else {
                line
            },
        );
    }
}

/// Scanning moves forward: the cursor never goes back, stays inside the
/// source, and every token but `EOF` takes at least one character.
pub proof fn lemma_scan_moves_forward(src: Seq<char>, c: Cursor)
    ensures
        scan(src, c).1.current >= c.current,
        scan(src, c).0.token_type != TokenType::EOF ==> scan(src, c).1.current > c.current
            && c.current < src.len(),
        scan(src, c).0.token_type == TokenType::EOF ==> scan(src, c).1.current >= src.len()
            && scan(src, scan(src, c).1) == scan(src, c),
        c.current <= src.len() ==> scan(src, c).1.current <= src.len(),
        c.line <= usize::MAX ==> scan(src, c).1.line <= usize::MAX,
{
    lemma_skip_blanks(src, c);
    let skipped = skip_blanks(src, c);
    let begun = Cursor { start: skipped.current, ..skipped };
    if begun.current < src.len() {
        let one = Cursor { current: begun.current + 1, ..begun };
        lemma_span_end(src, one.current, in_string());
        lemma_span_end(src, one.current, in_number());
        lemma_span_end(src, one.current, in_word());
        let whole = span_end(src, one.current, in_number());
        lemma_span_end(src, whole + 1, in_number());
        if c.line <= usize::MAX {
            lemma_line_after(src, one.current, span_end(src, one.current, in_string()), one.line);
        }
    }
}

/// A cursor over the source text that hands out its tokens one by one.
#[derive(Debug, Clone, Copy)]
pub struct Scanner {
    start: usize,
    current: usize,
    line: usize,
}

impl View for Scanner {
    type V = Cursor;

    closed spec fn view(&self) -> Cursor {
        Cursor { start: self.start as nat, current: self.current as nat, line: self.line as nat }
    }
}

impl Scanner {
    /// A scanner at the start of a source, on line 1.
    pub fn new() -> (scanner: Scanner)
        ensures
            scanner@ == (Cursor { start: 0, current: 0, line: 1 }),
    {
        Scanner { start: 0, current: 0, line: 1 }
    }

    /// Scans the next token of `source`.
    pub fn scan_token(&mut self, source: &String) -> (token: Token)
        ensures
            token == scan(source@, old(self)@).0,
            final(self)@ == scan(source@, old(self)@).1,
    {
        self.skip_whitespace(source);
        self.start = self.current;

        if self.is_at_end(source) {
            return self.make_token(TokenType::EOF);
        }
        let c = self.advance(source);
        if c == '(' {
            self.make_token(TokenType::LeftParen)
        } else if c == ')' {
            self.make_token(TokenType::RightParen)
        } else if c == '{' {
            self.make_token(TokenType::LeftBrace)
        } else if c == '}' {
            self.make_token(TokenType::RightBrace)
        } else if c == ';' {
            self.make_token(TokenType::Semicolon)
        } else if c == ',' {
            self.make_token(TokenType::Comma)
        } else if c == '.' {
            self.make_token(TokenType::Dot)
        } else if c == '-' {
            self.make_token(TokenType::Minus)
        } else if c == '+' {
            self.make_token(TokenType::Plus)
        } else if c == '/' {
            self.make_token(TokenType::Slash)
        } else if c == '*' {
            self.make_token(TokenType::Star)
        } else if c == '!' {
            let m = self.match_next(source, '=');
            self.make_token(if m { TokenType::BangEqual } else { TokenType::Bang })
        } else if c == '=' {
            let m = self.match_next(source, '=');
            self.make_token(if m { TokenType::EqualEqual } else { TokenType::Equal })
        } else if c == '<' {
            let m = self.match_next(source, '=');
            self.make_token(if m { TokenType::LessEqual } else { TokenType::Less })
        } else if c == '>' {
            let m = self.match_next(source, '=');
            self.make_token(if m { TokenType::GreaterEqual } else { TokenType::Greater })
        } else if c == '"' {
            self.string_token(source)
        } else if '0' <= c && c <= '9' {
            self.number_token(source)
        } else if ('a' <= c && c <= 'z') || ('A' <= c && c <= 'Z') {
            proof {
                lemma_span_end(source@, self@.current, in_word());
            }
            self.word(source);
            let kind = self.identifier_type(source);
            self.make_token(kind)
        } else {
            self.error_token("Unexpected character.")
        }
    }

    fn make_token(&self, token_type: TokenType) -> (token: Token)
        requires
            self@.start <= self@.current,
        ensures
            token == token_at(self@, token_type),
    {
        Token {
            token_type,
            start: self.start,
            length: self.current - self.start,
            line: self.line,
        }
    }

    fn error_token(&self, message: &str) -> (token: Token)
        ensures
            token == error_at(self@, message@),
    {
        Token {
            token_type: TokenType::Error,
            start: 0,
            length: message.unicode_len(),
            line: self.line,
        }
    }

    fn identifier_type(&self, source: &String) -> (kind: TokenType)
        ensures
            kind == keyword(slice(source@, self@.start as int, self@.current as int)),
    {
        let word = slice_text(source, self.start, self.current);
        if self.check_keyword(&word, "and") {
            TokenType::And
        } else if self.check_keyword(&word, "class") {
            TokenType::Class
        } else if self.check_keyword(&word, "else") {
            TokenType::Else
        } else if self.check_keyword(&word, "false") {
            TokenType::False
        } else if self.check_keyword(&word, "for") {
            TokenType::For
        } else if self.check_keyword(&word, "fun") {
            TokenType::Fun
        } else if self.check_keyword(&word, "if") {
            TokenType::If
        } else if self.check_keyword(&word, "nil") {
            TokenType::Nil
        } else if self.check_keyword(&word, "or") {
            TokenType::Or
        } else if self.check_keyword(&word, "print") {
            TokenType::Print
        } else if self.check_keyword(&word, "return") {
            TokenType::Return
        } else if self.check_keyword(&word, "super") {
            TokenType::Super
        } else if self.check_keyword(&word, "this") {
            TokenType::This
        } else if self.check_keyword(&word, "true") {
            TokenType::True
        } else if self.check_keyword(&word, "var") {
            TokenType::Var
        } else if self.check_keyword(&word, "while") {
            TokenType::While
        } else {
            TokenType::Identifier
        }
    }

    /// Whether the word is the given keyword.
    fn check_keyword(&self, word: &String, keyword: &str) -> (same: bool)
        ensures
            same == (word@ == keyword@),
    {
        let expected = String::from_str(keyword);
        *word == expected
    }

    fn advance(&mut self, source: &String) -> (c: char)
        requires
            old(self)@.current < source@.len(),
            source@.len() <= usize::MAX,
        ensures
            c == source@[old(self)@.current as int],
            final(self)@ == (Cursor { current: old(self)@.current + 1, ..old(self)@ }),
    {
        let c = source.as_str().get_char(self.current);
        self.current = self.current + 1;
        c
    }

    fn peek(&self, source: &String) -> (c: char)
        ensures
            c == char_at(source@, self@.current),
            source@.len() <= usize::MAX,
    {
        if self.is_at_end(source) {
            return '\0';
        }
        source.as_str().get_char(self.current)
    }

    fn peek_next(&self, source: &String) -> (c: char)
        ensures
            c == char_at(source@, self@.current + 1),
    {
        let len = source.as_str().unicode_len();
        if self.current >= len || self.current + 1 >= len {
            return '\0';
        }
        source.as_str().get_char(self.current + 1)
    }

    fn skip_whitespace(&mut self, source: &String)
        ensures
            final(self)@ == skip_blanks(source@, old(self)@),
    {
        loop
            invariant
                skip_blanks(source@, self@) == skip_blanks(source@, old(self)@),
                self@.line <= usize::MAX,
            ensures
                self@ == skip_blanks(source@, old(self)@),
            decreases source@.len() - self@.current,
        {
            if self.is_at_end(source) {
                break;
            }
            let c: char = self.peek(source);
            if c == ' ' || c == '\r' || c == '\t' {
                self.advance(source);
            } else if c == '\n' {
                if self.line < usize::MAX {
                    self.line = self.line + 1;
                }
                self.advance(source);
            } else if c == '/' {
                if self.peek_next(source) == '/' {
                    proof {
                        lemma_span_end(source@, self@.current + 2, in_comment());
                    }
                    self.advance(source);
                    self.advance(source);
                    self.comment(source);
                } else {
                    break;
                }
            } else {
                break;
            }
        }
    }

    fn match_next(&mut self, source: &String, expected: char) -> (matched: bool)
        ensures
            matched == (char_at(source@, old(self)@.current) == expected
                && old(self)@.current < source@.len()),
            final(self)@ == (if matched {
                Cursor { current: old(self)@.current + 1, ..old(self)@ }
            } else {
                old(self)@
            }),
    {
        if self.is_at_end(source) {
            return false;
        }
        if self.peek(source) != expected {
            return false;
        }
        self.current = self.current + 1;
        true
    }

    fn string_token(&mut self, source: &String) -> (token: Token)
        requires
            old(self)@.start <= old(self)@.current,
        ensures
            token == string_from(source@, old(self)@).0,
            final(self)@ == string_from(source@, old(self)@).1,
    {
        let ghost from = self@.current;
        let ghost line = self@.line;
        while self.peek(source) != '"' && !self.is_at_end(source)
            invariant
                self@.start == old(self)@.start,
                self@.start <= self@.current,
                from == old(self)@.current,
                line == old(self)@.line,
                from <= self@.current,
                self@.current <= source@.len() || self@.current == from,
                span_end(source@, self@.current, in_string()) == span_end(
                    source@,
                    from,
                    in_string(),
                ),
                line_after(source@, from, span_end(source@, from, in_string()), line)
                    == line_after(
                    source@,
                    self@.current,
                    span_end(source@, from, in_string()),
                    self@.line,
                ),
            decreases source@.len() - self@.current,
        {
            proof {
                lemma_span_end(source@, self@.current, in_string());
            }
            if self.peek(source) == '\n' {
                if self.line < usize::MAX {
                    self.line = self.line + 1;
                }
            }
            self.advance(source);
        }
        proof {
            lemma_span_end(source@, self@.current, in_string());
        }

        if self.is_at_end(source) {
            return self.error_token("Unterminated string.");
        }
        self.advance(source);
        self.make_token(TokenType::String)
    }

    /// Moves behind the digits at the cursor.
    fn digits(&mut self, source: &String)
        ensures
            final(self)@ == (Cursor {
                current: span_end(source@, old(self)@.current, in_number()),
                ..old(self)@
            }),
    {
        let ghost from = self@.current;
        loop
            invariant
                self@.start == old(self)@.start,
                self@.line == old(self)@.line,
                from == old(self)@.current,
                span_end(source@, self@.current, in_number()) == span_end(
                    source@,
                    from,
                    in_number(),
                ),
            ensures
                self@ == (Cursor {
                    current: span_end(source@, old(self)@.current, in_number()),
                    ..old(self)@
                }),
            decreases source@.len() - self@.current,
        {
            let c = self.peek(source);
            if self.is_at_end(source) || !('0' <= c && c <= '9') {
                break;
            }
            self.advance(source);
        }
    }

    /// Moves behind the letters and numbers at the cursor.
    fn word(&mut self, source: &String)
        ensures
            final(self)@ == (Cursor {
                current: span_end(source@, old(self)@.current, in_word()),
                ..old(self)@
            }),
    {
        let ghost from = self@.current;
        loop
            invariant
                self@.start == old(self)@.start,
                self@.line == old(self)@.line,
                from == old(self)@.current,
                span_end(source@, self@.current, in_word()) == span_end(source@, from, in_word()),
            ensures
                self@ == (Cursor {
                    current: span_end(source@, old(self)@.current, in_word()),
                    ..old(self)@
                }),
            decreases source@.len() - self@.current,
        {
            if self.is_at_end(source) || !is_alphanumeric(self.peek(source)) {
                break;
            }
            self.advance(source);
        }
    }

    /// Moves to the end of the line.
    fn comment(&mut self, source: &String)
        ensures
            final(self)@ == (Cursor {
                current: span_end(source@, old(self)@.current, in_comment()),
                ..old(self)@
            }),
    {
        let ghost from = self@.current;
        loop
            invariant
                self@.start == old(self)@.start,
                self@.line == old(self)@.line,
                from == old(self)@.current,
                span_end(source@, self@.current, in_comment()) == span_end(
                    source@,
                    from,
                    in_comment(),
                ),
            ensures
                self@ == (Cursor {
                    current: span_end(source@, old(self)@.current, in_comment()),
                    ..old(self)@
                }),
            decreases source@.len() - self@.current,
        {
            if self.is_at_end(source) || self.peek(source) == '\n' {
                break;
            }
            self.advance(source);
        }
    }

    fn number_token(&mut self, source: &String) -> (token: Token)
        requires
            old(self)@.start <= old(self)@.current,
        ensures
            token == number_from(source@, old(self)@).0,
            final(self)@ == number_from(source@, old(self)@).1,
    {
        proof {
            lemma_span_end(source@, self@.current, in_number());
        }
        self.digits(source);
        let next = self.peek_next(source);
        if self.peek(source) == '.' && '0' <= next && next <= '9' {
            proof {
                lemma_span_end(source@, self@.current + 1, in_number());
            }
            self.advance(source);
            self.digits(source);
        }
        self.make_token(TokenType::Number)
    }

    fn is_at_end(&self, source: &String) -> (at_end: bool)
        ensures
            at_end == (self@.current >= source@.len()),
            source@.len() <= usize::MAX,
    {
        self.current >= source.as_str().unicode_len()
    }
}

/// The texts of the number literals of a source from the cursor on, in the
/// order of the source.
pub open spec fn number_lexemes(src: Seq<char>, c: Cursor) -> Seq<Seq<char>>
    decreases src.len() - c.current,
{
    let (token, next) = scan(src, c);
    if token.token_type == TokenType::EOF {
        Seq::empty()
    } else {
        proof {
            lemma_scan_moves_forward(src, c);
        }
        if token.token_type == TokenType::Number {
            seq![lexeme(src, token)] + number_lexemes(src, next)
        } else {
            number_lexemes(src, next)
        }
    }
}

/// Collects the texts of the number literals of a source, in its order. The
/// compiler takes their values in this order.
pub fn number_literals(source: &String) -> (texts: Vec<String>)
    ensures
        texts@.len() == number_lexemes(source@, Cursor { start: 0, current: 0, line: 1 }).len(),
        forall|i: int|
            0 <= i < texts@.len() ==> (#[trigger] texts@[i])@ == number_lexemes(
                source@,
                Cursor { start: 0, current: 0, line: 1 },
            )[i],
{
    let mut scanner = Scanner::new();
    let mut texts: Vec<String> = Vec::new();
    let ghost all = number_lexemes(source@, scanner@);
    let ghost mut found: Seq<Seq<char>> = Seq::empty();
    loop
        invariant
            all == number_lexemes(source@, Cursor { start: 0, current: 0, line: 1 }),
            found + number_lexemes(source@, scanner@) == all,
            texts@.len() == found.len(),
            forall|i: int| 0 <= i < texts@.len() ==> (#[trigger] texts@[i])@ == found[i],
        ensures
            found == all,
            texts@.len() == found.len(),
            forall|i: int| 0 <= i < texts@.len() ==> (#[trigger] texts@[i])@ == found[i],
        decreases source@.len() - scanner@.current,
    {
        proof {
            lemma_scan_moves_forward(source@, scanner@);
        }
        let ghost before = scanner@;
        let token = scanner.scan_token(source);
        if token.token_type == TokenType::EOF {
            proof {
                assert(number_lexemes(source@, before) == Seq::<Seq<char>>::empty());
                assert(found + Seq::<Seq<char>>::empty() =~= found);
            }
            break;
        }
        if token.token_type == TokenType::Number {
            let end = if token.length <= usize::MAX - token.start {
                token.start + token.length
            } else {
                usize::MAX
            };
            let text = slice_text(source, token.start, end);
            proof {
                let rest = number_lexemes(source@, scanner@);
                assert(number_lexemes(source@, before) == seq![text@] + rest);
                assert(found.push(text@) + rest =~= found + (seq![text@] + rest));
                found = found.push(text@);
            }
            texts.push(text);
        }
    }
    texts
}

} // verus!
