use vstd::prelude::*;

pub mod spec;
pub mod token;

pub use token::{Token, TokenType};

use self::spec::{
    adv, char_is_alphanumeric, cur, digits_end, ident_end, is_digit, is_ident_char, lemma_adv,
    lemma_next_token, lex_at, lex_number, lex_string, next_token, skip_trivia, tokenize, wf_point,
    LexPoint,
};
use self::token::{tag_eof, TokenView};
use crate::span::Span;
use crate::text::{chars_of, push_char, string_from, string_of};

verus! {

/// Whether `c` is alphabetic or numeric (`char::is_alphanumeric`). The
/// contract names the result; beside that it states only what the standard
/// documentation gives for ASCII: letters and digits are alphanumeric, no
/// other ASCII character is.
#[verifier::external_body]
fn is_alphanumeric(c: char) -> (r: bool)
    ensures
        r == char_is_alphanumeric(c),
        ('a' <= c <= 'z' || 'A' <= c <= 'Z' || '0' <= c <= '9') ==> r,
        (c as u32) < 128 && !('a' <= c <= 'z' || 'A' <= c <= 'Z' || '0' <= c <= '9') ==> !r,
{
    c.is_alphanumeric()
}

fn is_char(o: Option<char>, c: char) -> (r: bool)
    ensures
        r == (o == Some(c)),
{
    match o {
        Some(d) => d == c,
        None => false,
    }
}

/// The lexer: it turns the characters of a source into tokens, keeping track
/// of the line and column of each.
pub struct Lexer {
    input: Vec<char>,
    position: usize,
    line: usize,
    column: usize,
    file: String,
}

impl Lexer {
    pub closed spec fn input_view(&self) -> Seq<char> {
        self.input@
    }

    pub closed spec fn file_view(&self) -> Seq<char> {
        self.file@
    }

    /// Where the lexer stands: index, line and column of the next character.
    pub closed spec fn point(&self) -> LexPoint {
        (self.position as int, self.line as int, self.column as int)
    }

    pub closed spec fn wf(&self) -> bool {
        &&& wf_point(self.input@, self.point())
        &&& self.input@.len() < usize::MAX
    }

    /// A lexer at the start of `input`, line 1, column 1.
    pub fn new(input: String, file: String) -> (l: Lexer)
        requires
            input@.len() < usize::MAX,
        ensures
            l.wf(),
            l.input_view() == input@,
            l.file_view() == file@,
            l.point() == (0int, 1int, 1int),
    {
        Lexer { input: chars_of(input.as_str()), position: 0, line: 1, column: 1, file }
    }

    /// The next token; blanks and comments before it are skipped. At the end
    /// of the input this is the end-of-file token, again on every call.
    pub fn next_token(&mut self) -> (t: Token)
        requires
            old(self).wf(),
        ensures
            final(self).wf(),
            final(self).input_view() == old(self).input_view(),
            final(self).file_view() == old(self).file_view(),
            (t@, final(self).point()) == next_token(
                old(self).input_view(),
                old(self).file_view(),
                old(self).point(),
            ),
    {
        self.skip_whitespace_and_comments();
        let start_line = self.line;
        let start_col = self.column;
        let ch = match self.current_char() {
            Some(c) => c,
            None => {
                return Token::eof(self.file.clone(), self.line, self.column);
            },
        };
        let next = self.peek();
        if ch == '+' {
            self.simple_token(TokenType::Plus)
        } else if ch == '-' {
            self.simple_token(TokenType::Minus)
        } else if ch == '*' {
            self.simple_token(TokenType::Star)
        } else if ch == '/' {
            self.simple_token(TokenType::Slash)
        } else if ch == '^' {
            self.simple_token(TokenType::Caret)
        } else if ch == '%' {
            self.simple_token(TokenType::Percent)
        } else if ch == '&' {
            self.simple_token(TokenType::Ampersand)
        } else if ch == '|' {
            self.simple_token(TokenType::Pipe)
        } else if ch == '=' {
            if is_char(next, '=') {
                self.double_token("==", TokenType::EqualEqual)
            } else if is_char(next, '>') {
                self.double_token("=>", TokenType::Arrow)
            } else {
                self.simple_token(TokenType::Equal)
            }
        } else if ch == '!' {
            if is_char(next, '=') {
                self.double_token("!=", TokenType::BangEqual)
            } else {
                self.simple_token(TokenType::Bang)
            }
        } else if ch == '<' {
            if is_char(next, '=') {
                self.double_token("<=", TokenType::LessEqual)
            } else {
                self.simple_token(TokenType::Less)
            }
        } else if ch == '>' {
            if is_char(next, '=') {
                self.double_token(">=", TokenType::GreaterEqual)
            } else {
                self.simple_token(TokenType::Greater)
            }
        } else if ch == ':' {
            if is_char(next, '=') {
                self.double_token(":=", TokenType::ColonEqual)
            } else {
                self.simple_token(TokenType::Colon)
            }
        } else if ch == '@' {
            if is_char(next, '@') {
                self.double_token("@@", TokenType::AtAt)
            } else {
                self.simple_token(TokenType::At)
            }
        } else if ch == '(' {
            self.simple_token(TokenType::LeftParen)
        } else if ch == ')' {
            self.simple_token(TokenType::RightParen)
        } else if ch == '{' {
            self.simple_token(TokenType::LeftBrace)
        } else if ch == '}' {
            self.simple_token(TokenType::RightBrace)
        } else if ch == '[' {
            self.simple_token(TokenType::LeftBracket)
        } else if ch == ']' {
            self.simple_token(TokenType::RightBracket)
        } else if ch == ';' {
            self.simple_token(TokenType::Semicolon)
        } else if ch == ',' {
            self.simple_token(TokenType::Comma)
        } else if ch == '.' {
            self.simple_token(TokenType::Dot)
        } else if ch == '"' {
            self.read_string(start_line, start_col)
        } else if '0' <= ch && ch <= '9' {
            self.read_number(start_line, start_col)
        } else if ('a' <= ch && ch <= 'z') || ('A' <= ch && ch <= 'Z') || ch == '_' {
            self.read_identifier(start_line, start_col)
        } else {
            let mut msg = string_from("Invalid character '");
            push_char(&mut msg, ch);
            push_char(&mut msg, '\'');
            self.advance();
            self.error_token(msg, start_line, start_col)
        }
    }

    /// An identifier or keyword starting at a letter or `_`.
    fn read_identifier(&mut self, line: usize, col: usize) -> (t: Token)
        requires
            old(self).wf(),
            old(self).point().1 == line,
            old(self).point().2 == col,
            cur(old(self).input_view(), old(self).point().0) is Some,
        ensures
            final(self).wf(),
            final(self).input_view() == old(self).input_view(),
            final(self).file_view() == old(self).file_view(),
            (t@, final(self).point()) == spec::lex_ident(
                old(self).input_view(),
                old(self).file_view(),
                old(self).point(),
            ),
    {
        let start = self.position;
        self.advance();
        while self.position < self.input.len() && (is_alphanumeric(self.input[self.position])
            || self.input[self.position] == '_')
            invariant
                self.wf(),
                self.input_view() == old(self).input_view(),
                self.file_view() == old(self).file_view(),
                ident_end(self.input@, self.point()) == ident_end(
                    self.input@,
                    adv(self.input@, old(self).point()),
                ),
                start == old(self).point().0,
                start < self.position,
            decreases self.input@.len() - self.position,
        {
            self.advance();
        }
        let lexeme = string_of(&self.input, start, self.position);
        let token_type = match TokenType::from_keyword(lexeme.as_str()) {
            Some(t) => t,
            None => TokenType::Identifier(lexeme.clone()),
        };
        self.make_token(lexeme, token_type, line, col)
    }

    /// Advances over a run of decimal digits.
    fn read_digits(&mut self)
        requires
            old(self).wf(),
        ensures
            final(self).wf(),
            final(self).input_view() == old(self).input_view(),
            final(self).file_view() == old(self).file_view(),
            final(self).point() == digits_end(old(self).input_view(), old(self).point()),
    {
        while self.position < self.input.len() && '0' <= self.input[self.position]
            && self.input[self.position] <= '9'
            invariant
                self.wf(),
                self.input_view() == old(self).input_view(),
                self.file_view() == old(self).file_view(),
                digits_end(self.input@, self.point()) == digits_end(
                    self.input@,
                    old(self).point(),
                ),
            decreases self.input@.len() - self.position,
        {
            self.advance();
        }
    }

    /// A number: integer part, optional decimals, optional exponent.
    fn read_number(&mut self, line: usize, col: usize) -> (t: Token)
        requires
            old(self).wf(),
            old(self).point().1 == line,
            old(self).point().2 == col,
        ensures
            final(self).wf(),
            final(self).input_view() == old(self).input_view(),
            final(self).file_view() == old(self).file_view(),
            (t@, final(self).point()) == lex_number(
                old(self).input_view(),
                old(self).file_view(),
                old(self).point(),
            ),
    {
        let start = self.position;
        proof {
            spec::lemma_digits_end(self.input@, self.point());
        }
        self.read_digits();
        if is_char(self.current_char(), '.') {
            proof {
                lemma_adv(self.input@, self.point());
                spec::lemma_digits_end(self.input@, adv(self.input@, self.point()));
            }
            self.advance();
            self.read_digits();
        }
        let c = self.current_char();
        if is_char(c, 'e') || is_char(c, 'E') {
            self.advance();
            let d = self.current_char();
            if is_char(d, '+') || is_char(d, '-') {
                self.advance();
            }
            proof {
                spec::lemma_digits_end(self.input@, self.point());
            }
            let is_d = match self.current_char() {
                Some(x) => '0' <= x && x <= '9',
                None => false,
            };
            if !is_d {
                return self.error_token(string_from("Invalid scientific notation"), line, col);
            }
            self.read_digits();
        }
        let lexeme = string_of(&self.input, start, self.position);
        let number = lexeme.clone();
        self.make_token(lexeme, TokenType::Number(number), line, col)
    }

    /// A string literal from its opening quote, with escapes resolved.
    fn read_string(&mut self, line: usize, col: usize) -> (t: Token)
        requires
            old(self).wf(),
            old(self).point().1 == line,
            old(self).point().2 == col,
        ensures
            final(self).wf(),
            final(self).input_view() == old(self).input_view(),
            final(self).file_view() == old(self).file_view(),
            (t@, final(self).point()) == lex_string(
                old(self).input_view(),
                old(self).file_view(),
                old(self).point(),
                adv(old(self).input_view(), old(self).point()),
                Seq::<char>::empty(),
            ),
    {
        let ghost start = self.point();
        let ghost target = lex_string(
            self.input@,
            self.file@,
            start,
            adv(self.input@, start),
            Seq::<char>::empty(),
        );
        self.advance();
        let mut result = String::new();
        loop
            invariant
                self.wf(),
                self.input_view() == old(self).input_view(),
                self.file_view() == old(self).file_view(),
                start == old(self).point(),
                line == start.1,
                col == start.2,
                lex_string(self.input@, self.file@, start, self.point(), result@) == target,
                target == lex_string(
                    old(self).input_view(),
                    old(self).file_view(),
                    old(self).point(),
                    adv(old(self).input_view(), old(self).point()),
                    Seq::<char>::empty(),
                ),
            decreases self.input@.len() - self.position,
        {
            let c = match self.current_char() {
                Some(c) => c,
                None => {
                    return self.error_token(string_from("Unterminated string"), line, col);
                },
            };
            if c == '"' {
                self.advance();
                let text = result.clone();
                return self.make_token(result, TokenType::String(text), line, col);
            } else if c == '\\' {
                self.advance();
                let d = match self.current_char() {
                    Some(d) => d,
                    None => {
                        return self.error_token(string_from("Unterminated escape"), line, col);
                    },
                };
                if d == 'n' {
                    push_char(&mut result, '\n');
                } else if d == 't' {
                    push_char(&mut result, '\t');
                } else if d == '"' {
                    push_char(&mut result, '"');
                } else if d == '\\' {
                    push_char(&mut result, '\\');
                } else {
                    let mut msg = string_from("Invalid escape sequence \\");
                    push_char(&mut msg, d);
                    return self.error_token(msg, line, col);
                }
                self.advance();
            } else if c == '\n' {
                return self.error_token(string_from("Unterminated string"), line, col);
            } else {
                push_char(&mut result, c);
                self.advance();
            }
        }
    }

    /// Skips blanks, newlines, `//` comments and `/* */` comments.
    pub fn skip_whitespace_and_comments(&mut self)
        requires
            old(self).wf(),
        ensures
            final(self).wf(),
            final(self).input_view() == old(self).input_view(),
            final(self).file_view() == old(self).file_view(),
            final(self).point() == skip_trivia(old(self).input_view(), old(self).point(), 0),
    {
        let ghost target = skip_trivia(self.input@, self.point(), 0);
        loop
            invariant
                self.wf(),
                self.input_view() == old(self).input_view(),
                self.file_view() == old(self).file_view(),
                skip_trivia(self.input@, self.point(), 0) == target,
            ensures
                self.wf(),
                self.input_view() == old(self).input_view(),
                self.file_view() == old(self).file_view(),
                self.point() == target,
            decreases self.input@.len() - self.position,
        {
            let c = match self.current_char() {
                Some(c) => c,
                None => {
                    break;
                },
            };
            let next = self.peek();
            if c == ' ' || c == '\t' || c == '\r' || c == '\n' {
                self.advance();
            } else if c == '/' && is_char(next, '/') {
                let ghost p0 = self.position;
                self.advance();
                self.advance();
                loop
                    invariant
                        self.wf(),
                        self.input_view() == old(self).input_view(),
                        self.file_view() == old(self).file_view(),
                        skip_trivia(self.input@, self.point(), 1) == target,
                        self.position > p0,
                    ensures
                        self.wf(),
                        self.input_view() == old(self).input_view(),
                        self.file_view() == old(self).file_view(),
                        skip_trivia(self.input@, self.point(), 0) == target,
                        self.position > p0,
                    decreases self.input@.len() - self.position,
                {
                    match self.current_char() {
                        Some(d) => {
                            if d == '\n' {
                                break;
                            }
                            self.advance();
                        },
                        None => {
                            break;
                        },
                    }
                }
            } else if c == '/' && is_char(next, '*') {
                let ghost p0 = self.position;
                self.advance();
                self.advance();
                loop
                    invariant_except_break
                        skip_trivia(self.input@, self.point(), 2) == target,
                    invariant
                        self.wf(),
                        self.input_view() == old(self).input_view(),
                        self.file_view() == old(self).file_view(),
                        self.position > p0,
                    ensures
                        self.wf(),
                        self.input_view() == old(self).input_view(),
                        self.file_view() == old(self).file_view(),
                        skip_trivia(self.input@, self.point(), 0) == target,
                        self.position > p0,
                    decreases self.input@.len() - self.position,
                {
                    match self.current_char() {
                        Some(d) => {
                            if d == '*' && is_char(self.peek(), '/') {
                                self.advance();
                                self.advance();
                                break;
                            }
                            self.advance();
                        },
                        None => {
                            break;
                        },
                    }
                }
            } else {
                break;
            }
        }
    }

    /// A token of the current character alone.
    fn simple_token(&mut self, token_type: TokenType) -> (t: Token)
        requires
            old(self).wf(),
            cur(old(self).input_view(), old(self).point().0) is Some,
        ensures
            final(self).wf(),
            final(self).input_view() == old(self).input_view(),
            final(self).file_view() == old(self).file_view(),
            (t@, final(self).point()) == spec::single(
                old(self).input_view(),
                old(self).file_view(),
                old(self).point(),
                token_type@,
            ),
    {
        let ch = self.input[self.position];
        let line = self.line;
        let col = self.column;
        self.advance();
        let mut lexeme = String::new();
        push_char(&mut lexeme, ch);
        assert(lexeme@ =~= seq![ch]);
        self.make_token(lexeme, token_type, line, col)
    }

    /// A token of the current character and the next one.
    fn double_token(&mut self, lexeme: &str, token_type: TokenType) -> (t: Token)
        requires
            old(self).wf(),
        ensures
            final(self).wf(),
            final(self).input_view() == old(self).input_view(),
            final(self).file_view() == old(self).file_view(),
            (t@, final(self).point()) == spec::double(
                old(self).input_view(),
                old(self).file_view(),
                old(self).point(),
                lexeme@,
                token_type@,
            ),
    {
        let line = self.line;
        let col = self.column;
        self.advance();
        self.advance();
        self.make_token(string_from(lexeme), token_type, line, col)
    }

    /// A token that starts at the given line and column and ends here.
    fn make_token(&self, lexeme: String, token_type: TokenType, start_line: usize, start_col: usize) -> (t: Token)
        ensures
            t@ == (lexeme@, token_type@, (self.file@, start_line, start_col, self.line, self.column)),
    {
        Token::new(
            lexeme,
            token_type,
            Span::new(self.file.clone(), start_line, start_col, self.line, self.column),
        )
    }

    /// An error token: the message stands as its lexeme.
    fn error_token(&self, message: String, line: usize, col: usize) -> (t: Token)
        ensures
            t@ == (message@, TokenType::Invalid@, (self.file@, line, col, self.line, self.column)),
    {
        Token::new(message, TokenType::Invalid, Span::new(self.file.clone(), line, col, self.line, self.column))
    }

    /// The current character, if any.
    pub fn current_char(&self) -> (r: Option<char>)
        requires
            self.wf(),
        ensures
            r == cur(self.input_view(), self.point().0),
    {
        if self.position < self.input.len() {
            Some(self.input[self.position])
        } else {
            None
        }
    }

    /// The character after the current one, if any.
    pub fn peek(&self) -> (r: Option<char>)
        requires
            self.wf(),
        ensures
            r == cur(self.input_view(), self.point().0 + 1),
    {
        if self.position + 1 < self.input.len() {
            Some(self.input[self.position + 1])
        } else {
            None
        }
    }

    /// Consumes the current character, if any: a newline moves to column 1 of
    /// the next line, another character to the next column.
    pub fn advance(&mut self)
        requires
            old(self).wf(),
        ensures
            final(self).wf(),
            final(self).input_view() == old(self).input_view(),
            final(self).file_view() == old(self).file_view(),
            final(self).point() == adv(old(self).input_view(), old(self).point()),
    {
        if self.position < self.input.len() {
            let c = self.input[self.position];
            self.position = self.position + 1;
            self.column = self.column + 1;
            if c == '\n' {
                self.line = self.line + 1;
                self.column = 1;
            }
        }
    }

    /// Every token of the input up to and including the end-of-file token.
    pub fn tokenize(&mut self) -> (tokens: Vec<Token>)
        requires
            old(self).wf(),
        ensures
            final(self).wf(),
            final(self).input_view() == old(self).input_view(),
            final(self).file_view() == old(self).file_view(),
            tokens@.map_values(|t: Token| t@) == tokenize(
                old(self).input_view(),
                old(self).file_view(),
                old(self).point(),
            ),
    {
        let ghost all = tokenize(self.input@, self.file@, self.point());
        let mut tokens: Vec<Token> = Vec::new();
        loop
            invariant_except_break
                tokens@.map_values(|t: Token| t@) + tokenize(self.input@, self.file@, self.point())
                    == all,
            invariant
                self.wf(),
                self.input_view() == old(self).input_view(),
                self.file_view() == old(self).file_view(),
            ensures
                self.wf(),
                self.input_view() == old(self).input_view(),
                self.file_view() == old(self).file_view(),
                tokens@.map_values(|t: Token| t@) == all,
            decreases self.input@.len() - self.position,
        {
            let ghost before = self.point();
            let ghost prev = tokens@.map_values(|t: Token| t@);
            proof {
                lemma_next_token(self.input@, self.file@, before);
            }
            let token = self.next_token();
            let is_eof = token.is_eof();
            tokens.push(token);
            assert(tokens@.map_values(|t: Token| t@) =~= prev.push(next_token(self.input@, self.file@, before).0));
            if is_eof {
                assert(tokenize(self.input@, self.file@, before) =~= seq![next_token(self.input@, self.file@, before).0]);
                assert(prev + seq![next_token(self.input@, self.file@, before).0] =~= prev.push(next_token(self.input@, self.file@, before).0));
                break;
            }
            assert(prev.push(next_token(self.input@, self.file@, before).0) + tokenize(self.input@, self.file@, self.point())
                =~= prev + tokenize(self.input@, self.file@, before));
        }
        tokens
    }
}

} // verus!
