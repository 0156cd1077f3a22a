use vstd::prelude::*;

use crate::span::Span;

verus! {

/// The kinds of token of the HULK language.
#[derive(Debug, PartialEq)]
pub enum TokenType {
    /// A numeric literal (integer or decimal), held as the text of the literal, e.g. `42`, `3.14159`, `1.5e10`.
    Number(String),
    /// A string literal, held with its escapes resolved.
    String(String),
    True,
    False,
    /// A name of a variable, function or type.
    Identifier(String),
    If,
    Elif,
    Else,
    While,
    For,
    In,
    Let,
    Function,
    Type,
    New,
    Inherits,
    SelfKeyword,
    Protocol,
    Extends,
    Is,
    As,
    Plus,
    Minus,
    Star,
    Slash,
    Caret,
    Percent,
    At,
    AtAt,
    EqualEqual,
    BangEqual,
    Less,
    Greater,
    LessEqual,
    GreaterEqual,
    Ampersand,
    Pipe,
    DoublePipe,
    Bang,
    Equal,
    ColonEqual,
    Arrow,
    LeftParen,
    RightParen,
    LeftBrace,
    RightBrace,
    LeftBracket,
    RightBracket,
    Semicolon,
    Comma,
    Dot,
    Colon,
    Pi,
    E,
    /// The end of the input.
    Eof,
    /// A lexical error; the token's lexeme holds the message.
    Invalid,
}

/// The mathematical content of a token kind: the position of its variant in the
/// declaration of `TokenType`, and the text it carries (empty for most kinds).
pub type KindView = (nat, Seq<char>);

impl View for TokenType {
    type V = KindView;

    open spec fn view(&self) -> KindView {
        match self {
            TokenType::Number(s) => (0nat, s@),
            TokenType::String(s) => (1nat, s@),
            TokenType::True => (2nat, Seq::<char>::empty()),
            TokenType::False => (3nat, Seq::<char>::empty()),
            TokenType::Identifier(s) => (4nat, s@),
            TokenType::If => (5nat, Seq::<char>::empty()),
            TokenType::Elif => (6nat, Seq::<char>::empty()),
            TokenType::Else => (7nat, Seq::<char>::empty()),
            TokenType::While => (8nat, Seq::<char>::empty()),
            TokenType::For => (9nat, Seq::<char>::empty()),
            TokenType::In => (10nat, Seq::<char>::empty()),
            TokenType::Let => (11nat, Seq::<char>::empty()),
            TokenType::Function => (12nat, Seq::<char>::empty()),
            TokenType::Type => (13nat, Seq::<char>::empty()),
            TokenType::New => (14nat, Seq::<char>::empty()),
            TokenType::Inherits => (15nat, Seq::<char>::empty()),
            TokenType::SelfKeyword => (16nat, Seq::<char>::empty()),
            TokenType::Protocol => (17nat, Seq::<char>::empty()),
            TokenType::Extends => (18nat, Seq::<char>::empty()),
            TokenType::Is => (19nat, Seq::<char>::empty()),
            TokenType::As => (20nat, Seq::<char>::empty()),
            TokenType::Plus => (21nat, Seq::<char>::empty()),
            TokenType::Minus => (22nat, Seq::<char>::empty()),
            TokenType::Star => (23nat, Seq::<char>::empty()),
            TokenType::Slash => (24nat, Seq::<char>::empty()),
            TokenType::Caret => (25nat, Seq::<char>::empty()),
            TokenType::Percent => (26nat, Seq::<char>::empty()),
            TokenType::At => (27nat, Seq::<char>::empty()),
            TokenType::AtAt => (28nat, Seq::<char>::empty()),
            TokenType::EqualEqual => (29nat, Seq::<char>::empty()),
            TokenType::BangEqual => (30nat, Seq::<char>::empty()),
            TokenType::Less => (31nat, Seq::<char>::empty()),
            TokenType::Greater => (32nat, Seq::<char>::empty()),
            TokenType::LessEqual => (33nat, Seq::<char>::empty()),
            TokenType::GreaterEqual => (34nat, Seq::<char>::empty()),
            TokenType::Ampersand => (35nat, Seq::<char>::empty()),
            TokenType::Pipe => (36nat, Seq::<char>::empty()),
            TokenType::DoublePipe => (37nat, Seq::<char>::empty()),
            TokenType::Bang => (38nat, Seq::<char>::empty()),
            TokenType::Equal => (39nat, Seq::<char>::empty()),
            TokenType::ColonEqual => (40nat, Seq::<char>::empty()),
            TokenType::Arrow => (41nat, Seq::<char>::empty()),
            TokenType::LeftParen => (42nat, Seq::<char>::empty()),
            TokenType::RightParen => (43nat, Seq::<char>::empty()),
            TokenType::LeftBrace => (44nat, Seq::<char>::empty()),
            TokenType::RightBrace => (45nat, Seq::<char>::empty()),
            TokenType::LeftBracket => (46nat, Seq::<char>::empty()),
            TokenType::RightBracket => (47nat, Seq::<char>::empty()),
            TokenType::Semicolon => (48nat, Seq::<char>::empty()),
            TokenType::Comma => (49nat, Seq::<char>::empty()),
            TokenType::Dot => (50nat, Seq::<char>::empty()),
            TokenType::Colon => (51nat, Seq::<char>::empty()),
            TokenType::Pi => (52nat, Seq::<char>::empty()),
            TokenType::E => (53nat, Seq::<char>::empty()),
            TokenType::Eof => (54nat, Seq::<char>::empty()),
            TokenType::Invalid => (55nat, Seq::<char>::empty()),
        }
    }
}

pub open spec fn tag_number() -> nat { 0nat }

pub open spec fn tag_string() -> nat { 1nat }

pub open spec fn tag_true() -> nat { 2nat }

pub open spec fn tag_false() -> nat { 3nat }

pub open spec fn tag_identifier() -> nat { 4nat }

pub open spec fn tag_if() -> nat { 5nat }

pub open spec fn tag_elif() -> nat { 6nat }

pub open spec fn tag_else() -> nat { 7nat }

pub open spec fn tag_while() -> nat { 8nat }

pub open spec fn tag_for() -> nat { 9nat }

pub open spec fn tag_in() -> nat { 10nat }

pub open spec fn tag_let() -> nat { 11nat }

pub open spec fn tag_function() -> nat { 12nat }

pub open spec fn tag_type() -> nat { 13nat }

pub open spec fn tag_new() -> nat { 14nat }

pub open spec fn tag_inherits() -> nat { 15nat }

pub open spec fn tag_self_keyword() -> nat { 16nat }

pub open spec fn tag_protocol() -> nat { 17nat }

pub open spec fn tag_extends() -> nat { 18nat }

pub open spec fn tag_is() -> nat { 19nat }

pub open spec fn tag_as() -> nat { 20nat }

pub open spec fn tag_plus() -> nat { 21nat }

pub open spec fn tag_minus() -> nat { 22nat }

pub open spec fn tag_star() -> nat { 23nat }

pub open spec fn tag_slash() -> nat { 24nat }

pub open spec fn tag_caret() -> nat { 25nat }

pub open spec fn tag_percent() -> nat { 26nat }

pub open spec fn tag_at() -> nat { 27nat }

pub open spec fn tag_at_at() -> nat { 28nat }

pub open spec fn tag_equal_equal() -> nat { 29nat }

pub open spec fn tag_bang_equal() -> nat { 30nat }

pub open spec fn tag_less() -> nat { 31nat }

pub open spec fn tag_greater() -> nat { 32nat }

pub open spec fn tag_less_equal() -> nat { 33nat }

pub open spec fn tag_greater_equal() -> nat { 34nat }

pub open spec fn tag_ampersand() -> nat { 35nat }

pub open spec fn tag_pipe() -> nat { 36nat }

pub open spec fn tag_double_pipe() -> nat { 37nat }

pub open spec fn tag_bang() -> nat { 38nat }

pub open spec fn tag_equal() -> nat { 39nat }

pub open spec fn tag_colon_equal() -> nat { 40nat }

pub open spec fn tag_arrow() -> nat { 41nat }

pub open spec fn tag_left_paren() -> nat { 42nat }

pub open spec fn tag_right_paren() -> nat { 43nat }

pub open spec fn tag_left_brace() -> nat { 44nat }

pub open spec fn tag_right_brace() -> nat { 45nat }

pub open spec fn tag_left_bracket() -> nat { 46nat }

pub open spec fn tag_right_bracket() -> nat { 47nat }

pub open spec fn tag_semicolon() -> nat { 48nat }

pub open spec fn tag_comma() -> nat { 49nat }

pub open spec fn tag_dot() -> nat { 50nat }

pub open spec fn tag_colon() -> nat { 51nat }

pub open spec fn tag_pi() -> nat { 52nat }

pub open spec fn tag_e() -> nat { 53nat }

pub open spec fn tag_eof() -> nat { 54nat }

pub open spec fn tag_invalid() -> nat { 55nat }

/// The human-readable name of a token kind, by its tag.
pub open spec fn kind_name(tag: nat) -> Seq<char> {
    if tag == 0nat {
        "number"@
    } else if tag == 1nat {
        "string"@
    } else if tag == 2nat {
        "true"@
    } else if tag == 3nat {
        "false"@
    } else if tag == 4nat {
        "identifier"@
    } else if tag == 5nat {
        "if"@
    } else if tag == 6nat {
        "elif"@
    } else if tag == 7nat {
        "else"@
    } else if tag == 8nat {
        "while"@
    } else if tag == 9nat {
        "for"@
    } else if tag == 10nat {
        "in"@
    } else if tag == 11nat {
        "let"@
    } else if tag == 12nat {
        "function"@
    } else if tag == 13nat {
        "type"@
    } else if tag == 14nat {
        "new"@
    } else if tag == 15nat {
        "inherits"@
    } else if tag == 16nat {
        "self"@
    } else if tag == 17nat {
        "protocol"@
    } else if tag == 18nat {
        "extends"@
    } else if tag == 19nat {
        "is"@
    } else if tag == 20nat {
        "as"@
    } else if tag == 21nat {
        "+"@
    } else if tag == 22nat {
        "-"@
    } else if tag == 23nat {
        "*"@
    } else if tag == 24nat {
        "/"@
    } else if tag == 25nat {
        "^"@
    } else if tag == 26nat {
        "%"@
    } else if tag == 27nat {
        "@"@
    } else if tag == 28nat {
        "@@"@
    } else if tag == 29nat {
        "=="@
    } else if tag == 30nat {
        "!="@
    } else if tag == 31nat {
        "<"@
    } else if tag == 32nat {
        ">"@
    } else if tag == 33nat {
        "<="@
    } else if tag == 34nat {
        ">="@
    } else if tag == 35nat {
        "&"@
    } else if tag == 36nat {
        "|"@
    } else if tag == 37nat {
        "||"@
    } else if tag == 38nat {
        "!"@
    } else if tag == 39nat {
        "="@
    } else if tag == 40nat {
        ":="@
    } else if tag == 41nat {
        "=>"@
    } else if tag == 42nat {
        "("@
    } else if tag == 43nat {
        ")"@
    } else if tag == 44nat {
        "{"@
    } else if tag == 45nat {
        "}"@
    } else if tag == 46nat {
        "["@
    } else if tag == 47nat {
        "]"@
    } else if tag == 48nat {
        ";"@
    } else if tag == 49nat {
        ","@
    } else if tag == 50nat {
        "."@
    } else if tag == 51nat {
        ":"@
    } else if tag == 52nat {
        "PI"@
    } else if tag == 53nat {
        "E"@
    } else if tag == 54nat {
        "end of file"@
    } else {
        "invalid token"@
    }
}

/// The token kind of a keyword, if `w` is one.
pub open spec fn keyword_kind(w: Seq<char>) -> Option<KindView> {
    if w == "if"@ {
        Some((5nat, Seq::<char>::empty()))
    } else if w == "elif"@ {
        Some((6nat, Seq::<char>::empty()))
    } else if w == "else"@ {
        Some((7nat, Seq::<char>::empty()))
    } else if w == "while"@ {
        Some((8nat, Seq::<char>::empty()))
    } else if w == "for"@ {
        Some((9nat, Seq::<char>::empty()))
    } else if w == "in"@ {
        Some((10nat, Seq::<char>::empty()))
    } else if w == "let"@ {
        Some((11nat, Seq::<char>::empty()))
    } else if w == "function"@ {
        Some((12nat, Seq::<char>::empty()))
    } else if w == "type"@ {
        Some((13nat, Seq::<char>::empty()))
    } else if w == "new"@ {
        Some((14nat, Seq::<char>::empty()))
    } else if w == "inherits"@ {
        Some((15nat, Seq::<char>::empty()))
    } else if w == "self"@ {
        Some((16nat, Seq::<char>::empty()))
    } else if w == "protocol"@ {
        Some((17nat, Seq::<char>::empty()))
    } else if w == "extends"@ {
        Some((18nat, Seq::<char>::empty()))
    } else if w == "is"@ {
        Some((19nat, Seq::<char>::empty()))
    } else if w == "as"@ {
        Some((20nat, Seq::<char>::empty()))
    } else if w == "true"@ {
        Some((2nat, Seq::<char>::empty()))
    } else if w == "false"@ {
        Some((3nat, Seq::<char>::empty()))
    } else if w == "PI"@ {
        Some((52nat, Seq::<char>::empty()))
    } else if w == "E"@ {
        Some((53nat, Seq::<char>::empty()))
    } else {
        None
    }
}

pub open spec fn is_keyword_tag(t: nat) -> bool {
    t == 5nat || t == 6nat || t == 7nat || t == 8nat || t == 9nat || t == 10nat || t == 11nat || t == 12nat || t == 13nat || t == 14nat || t == 15nat || t == 16nat || t == 17nat || t == 18nat || t == 19nat || t == 20nat || t == 2nat || t == 3nat
}

pub open spec fn is_literal_tag(t: nat) -> bool {
    t == 0nat || t == 1nat || t == 2nat || t == 3nat
}

pub open spec fn is_operator_tag(t: nat) -> bool {
    t == 21nat || t == 22nat || t == 23nat || t == 24nat || t == 25nat || t == 26nat || t == 27nat || t == 28nat || t == 29nat || t == 30nat || t == 31nat || t == 32nat || t == 33nat || t == 34nat || t == 35nat || t == 36nat || t == 38nat || t == 39nat || t == 40nat || t == 41nat
}

pub open spec fn is_delimiter_tag(t: nat) -> bool {
    t == 42nat || t == 43nat || t == 44nat || t == 45nat || t == 46nat || t == 47nat || t == 48nat || t == 49nat || t == 50nat || t == 51nat
}

impl TokenType {
    /// The token kind of a keyword, or `None` when `word` is no keyword.
    pub fn from_keyword(word: &str) -> (r: Option<TokenType>)
        ensures
            match keyword_kind(word@) {
                Some(k) => r matches Some(t) && t@ == k,
                None => r is None,
            },
    {
        if crate::text::str_equal(word, "if") {
            Some(TokenType::If)
        } else if crate::text::str_equal(word, "elif") {
            Some(TokenType::Elif)
        } else if crate::text::str_equal(word, "else") {
            Some(TokenType::Else)
        } else if crate::text::str_equal(word, "while") {
            Some(TokenType::While)
        } else if crate::text::str_equal(word, "for") {
            Some(TokenType::For)
        } else if crate::text::str_equal(word, "in") {
            Some(TokenType::In)
        } else if crate::text::str_equal(word, "let") {
            Some(TokenType::Let)
        } else if crate::text::str_equal(word, "function") {
            Some(TokenType::Function)
        } else if crate::text::str_equal(word, "type") {
            Some(TokenType::Type)
        } else if crate::text::str_equal(word, "new") {
            Some(TokenType::New)
        } else if crate::text::str_equal(word, "inherits") {
            Some(TokenType::Inherits)
        } else if crate::text::str_equal(word, "self") {
            Some(TokenType::SelfKeyword)
        } else if crate::text::str_equal(word, "protocol") {
            Some(TokenType::Protocol)
        } else if crate::text::str_equal(word, "extends") {
            Some(TokenType::Extends)
        } else if crate::text::str_equal(word, "is") {
            Some(TokenType::Is)
        } else if crate::text::str_equal(word, "as") {
            Some(TokenType::As)
        } else if crate::text::str_equal(word, "true") {
            Some(TokenType::True)
        } else if crate::text::str_equal(word, "false") {
            Some(TokenType::False)
        } else if crate::text::str_equal(word, "PI") {
            Some(TokenType::Pi)
        } else if crate::text::str_equal(word, "E") {
            Some(TokenType::E)
        } else {
            None
        }
    }

    /// A human-readable name for the token kind.
    pub fn name(&self) -> (r: &'static str)
        ensures
            r@ == kind_name(self@.0),
    {
        match self {
            TokenType::Number(_) => "number",
            TokenType::String(_) => "string",
            TokenType::True => "true",
            TokenType::False => "false",
            TokenType::Identifier(_) => "identifier",
            TokenType::If => "if",
            TokenType::Elif => "elif",
            TokenType::Else => "else",
            TokenType::While => "while",
            TokenType::For => "for",
            TokenType::In => "in",
            TokenType::Let => "let",
            TokenType::Function => "function",
            TokenType::Type => "type",
            TokenType::New => "new",
            TokenType::Inherits => "inherits",
            TokenType::SelfKeyword => "self",
            TokenType::Protocol => "protocol",
            TokenType::Extends => "extends",
            TokenType::Is => "is",
            TokenType::As => "as",
            TokenType::Plus => "+",
            TokenType::Minus => "-",
            TokenType::Star => "*",
            TokenType::Slash => "/",
            TokenType::Caret => "^",
            TokenType::Percent => "%",
            TokenType::At => "@",
            TokenType::AtAt => "@@",
            TokenType::EqualEqual => "==",
            TokenType::BangEqual => "!=",
            TokenType::Less => "<",
            TokenType::Greater => ">",
            TokenType::LessEqual => "<=",
            TokenType::GreaterEqual => ">=",
            TokenType::Ampersand => "&",
            TokenType::Pipe => "|",
            TokenType::DoublePipe => "||",
            TokenType::Bang => "!",
            TokenType::Equal => "=",
            TokenType::ColonEqual => ":=",
            TokenType::Arrow => "=>",
            TokenType::LeftParen => "(",
            TokenType::RightParen => ")",
            TokenType::LeftBrace => "{",
            TokenType::RightBrace => "}",
            TokenType::LeftBracket => "[",
            TokenType::RightBracket => "]",
            TokenType::Semicolon => ";",
            TokenType::Comma => ",",
            TokenType::Dot => ".",
            TokenType::Colon => ":",
            TokenType::Pi => "PI",
            TokenType::E => "E",
            TokenType::Eof => "end of file",
            TokenType::Invalid => "invalid token",
        }
    }

    /// The position of the variant in the declaration of `TokenType`.
    pub fn tag(&self) -> (r: u8)
        ensures
            r as nat == self@.0,
    {
        match self {
            TokenType::Number(_) => 0,
            TokenType::String(_) => 1,
            TokenType::True => 2,
            TokenType::False => 3,
            TokenType::Identifier(_) => 4,
            TokenType::If => 5,
            TokenType::Elif => 6,
            TokenType::Else => 7,
            TokenType::While => 8,
            TokenType::For => 9,
            TokenType::In => 10,
            TokenType::Let => 11,
            TokenType::Function => 12,
            TokenType::Type => 13,
            TokenType::New => 14,
            TokenType::Inherits => 15,
            TokenType::SelfKeyword => 16,
            TokenType::Protocol => 17,
            TokenType::Extends => 18,
            TokenType::Is => 19,
            TokenType::As => 20,
            TokenType::Plus => 21,
            TokenType::Minus => 22,
            TokenType::Star => 23,
            TokenType::Slash => 24,
            TokenType::Caret => 25,
            TokenType::Percent => 26,
            TokenType::At => 27,
            TokenType::AtAt => 28,
            TokenType::EqualEqual => 29,
            TokenType::BangEqual => 30,
            TokenType::Less => 31,
            TokenType::Greater => 32,
            TokenType::LessEqual => 33,
            TokenType::GreaterEqual => 34,
            TokenType::Ampersand => 35,
            TokenType::Pipe => 36,
            TokenType::DoublePipe => 37,
            TokenType::Bang => 38,
            TokenType::Equal => 39,
            TokenType::ColonEqual => 40,
            TokenType::Arrow => 41,
            TokenType::LeftParen => 42,
            TokenType::RightParen => 43,
            TokenType::LeftBrace => 44,
            TokenType::RightBrace => 45,
            TokenType::LeftBracket => 46,
            TokenType::RightBracket => 47,
            TokenType::Semicolon => 48,
            TokenType::Comma => 49,
            TokenType::Dot => 50,
            TokenType::Colon => 51,
            TokenType::Pi => 52,
            TokenType::E => 53,
            TokenType::Eof => 54,
            TokenType::Invalid => 55,
        }
    }

    pub fn copy(&self) -> (r: TokenType)
        ensures
            r@ == self@,
    {
        match self {
            TokenType::Number(s) => TokenType::Number(s.clone()),
            TokenType::String(s) => TokenType::String(s.clone()),
            TokenType::True => TokenType::True,
            TokenType::False => TokenType::False,
            TokenType::Identifier(s) => TokenType::Identifier(s.clone()),
            TokenType::If => TokenType::If,
            TokenType::Elif => TokenType::Elif,
            TokenType::Else => TokenType::Else,
            TokenType::While => TokenType::While,
            TokenType::For => TokenType::For,
            TokenType::In => TokenType::In,
            TokenType::Let => TokenType::Let,
            TokenType::Function => TokenType::Function,
            TokenType::Type => TokenType::Type,
            TokenType::New => TokenType::New,
            TokenType::Inherits => TokenType::Inherits,
            TokenType::SelfKeyword => TokenType::SelfKeyword,
            TokenType::Protocol => TokenType::Protocol,
            TokenType::Extends => TokenType::Extends,
            TokenType::Is => TokenType::Is,
            TokenType::As => TokenType::As,
            TokenType::Plus => TokenType::Plus,
            TokenType::Minus => TokenType::Minus,
            TokenType::Star => TokenType::Star,
            TokenType::Slash => TokenType::Slash,
            TokenType::Caret => TokenType::Caret,
            TokenType::Percent => TokenType::Percent,
            TokenType::At => TokenType::At,
            TokenType::AtAt => TokenType::AtAt,
            TokenType::EqualEqual => TokenType::EqualEqual,
            TokenType::BangEqual => TokenType::BangEqual,
            TokenType::Less => TokenType::Less,
            TokenType::Greater => TokenType::Greater,
            TokenType::LessEqual => TokenType::LessEqual,
            TokenType::GreaterEqual => TokenType::GreaterEqual,
            TokenType::Ampersand => TokenType::Ampersand,
            TokenType::Pipe => TokenType::Pipe,
            TokenType::DoublePipe => TokenType::DoublePipe,
            TokenType::Bang => TokenType::Bang,
            TokenType::Equal => TokenType::Equal,
            TokenType::ColonEqual => TokenType::ColonEqual,
            TokenType::Arrow => TokenType::Arrow,
            TokenType::LeftParen => TokenType::LeftParen,
            TokenType::RightParen => TokenType::RightParen,
            TokenType::LeftBrace => TokenType::LeftBrace,
            TokenType::RightBrace => TokenType::RightBrace,
            TokenType::LeftBracket => TokenType::LeftBracket,
            TokenType::RightBracket => TokenType::RightBracket,
            TokenType::Semicolon => TokenType::Semicolon,
            TokenType::Comma => TokenType::Comma,
            TokenType::Dot => TokenType::Dot,
            TokenType::Colon => TokenType::Colon,
            TokenType::Pi => TokenType::Pi,
            TokenType::E => TokenType::E,
            TokenType::Eof => TokenType::Eof,
            TokenType::Invalid => TokenType::Invalid,
        }
    }
}

impl Clone for TokenType {
    fn clone(&self) -> (r: TokenType)
        ensures
            r@ == self@,
    {
        self.copy()
    }
}

/// A token: its text in the source, its kind and where it stands.
#[derive(Debug, PartialEq)]
pub struct Token {
    /// The text of the token in the source (for an error token, the message).
    pub lexeme: String,
    pub token_type: TokenType,
    pub span: Span,
}

pub type TokenView = (Seq<char>, KindView, crate::span::SpanView);

impl View for Token {
    type V = TokenView;

    open spec fn view(&self) -> TokenView {
        (self.lexeme@, self.token_type@, self.span@)
    }
}

impl Token {
    pub fn new(lexeme: String, token_type: TokenType, span: Span) -> (t: Token)
        ensures
            t@ == (lexeme@, token_type@, span@),
    {
        Token { lexeme, token_type, span }
    }

    /// The end-of-file token at the given position.
    pub fn eof(file: String, line: usize, column: usize) -> (t: Token)
        ensures
            t@ == (Seq::<char>::empty(), TokenType::Eof@, (file@, line, column, line, column)),
    {
        Token {
            lexeme: String::new(),
            token_type: TokenType::Eof,
            span: Span::new(file, line, column, line, column),
        }
    }

    pub fn is_keyword(&self) -> (r: bool)
        ensures
            r == is_keyword_tag(self@.1.0),
    {
        let t = self.token_type.tag();
        t == 5 || t == 6 || t == 7 || t == 8 || t == 9 || t == 10 || t == 11 || t == 12 || t == 13 || t == 14 || t == 15 || t == 16 || t == 17 || t == 18 || t == 19 || t == 20 || t == 2 || t == 3
    }

    pub fn is_literal(&self) -> (r: bool)
        ensures
            r == is_literal_tag(self@.1.0),
    {
        let t = self.token_type.tag();
        t == 0 || t == 1 || t == 2 || t == 3
    }

    pub fn is_operator(&self) -> (r: bool)
        ensures
            r == is_operator_tag(self@.1.0),
    {
        let t = self.token_type.tag();
        t == 21 || t == 22 || t == 23 || t == 24 || t == 25 || t == 26 || t == 27 || t == 28 || t == 29 || t == 30 || t == 31 || t == 32 || t == 33 || t == 34 || t == 35 || t == 36 || t == 38 || t == 39 || t == 40 || t == 41
    }

    pub fn is_delimiter(&self) -> (r: bool)
        ensures
            r == is_delimiter_tag(self@.1.0),
    {
        let t = self.token_type.tag();
        t == 42 || t == 43 || t == 44 || t == 45 || t == 46 || t == 47 || t == 48 || t == 49 || t == 50 || t == 51
    }

    pub fn is_eof(&self) -> (r: bool)
        ensures
            r == (self@.1.0 == tag_eof()),
    {
        self.token_type.tag() == 54
    }

    pub fn copy(&self) -> (r: Token)
        ensures
            r@ == self@,
    {
        Token { lexeme: self.lexeme.clone(), token_type: self.token_type.copy(), span: self.span.copy() }
    }
}

impl Clone for Token {
    fn clone(&self) -> (r: Token)
        ensures
            r@ == self@,
    {
        self.copy()
    }
}

} // verus!
