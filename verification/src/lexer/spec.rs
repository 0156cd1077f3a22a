use vstd::prelude::*;

use super::token::{keyword_kind, tag_eof, tag_identifier, tag_number, tag_string, KindView, TokenType, TokenView};

verus! {

/// A point of the lexer in its input: the index of the next character, and the
/// line and column where that character stands.
pub type LexPoint = (int, int, int);

/// The character at index `p`, if there is one.
pub open spec fn cur(inp: Seq<char>, p: int) -> Option<char> {
    if 0 <= p < inp.len() {
        Some(inp[p])
    } else {
        None
    }
}

/// The point after consuming one character: a newline moves to the first
/// column of the next line, any other character to the next column.
pub open spec fn adv(inp: Seq<char>, s: LexPoint) -> LexPoint {
    if 0 <= s.0 < inp.len() {
        if inp[s.0] == '\n' {
            (s.0 + 1, s.1 + 1, 1)
        } else {
            (s.0 + 1, s.1, s.2 + 1)
        }
    } else {
        s
    }
}

/// A point that a lexer can be at: within the input, with a line and column
/// that no more characters than those consumed could have produced.
pub open spec fn wf_point(inp: Seq<char>, s: LexPoint) -> bool {
    &&& 0 <= s.0 <= inp.len()
    &&& 1 <= s.1 <= s.0 + 1
    &&& 1 <= s.2 <= s.0 + 1
}

pub open spec fn is_digit(c: char) -> bool {
    '0' <= c <= '9'
}

pub open spec fn is_ident_start(c: char) -> bool {
    ('a' <= c <= 'z') || ('A' <= c <= 'Z') || c == '_'
}

/// Whether `char::is_alphanumeric` holds of `c` (alphabetic or numeric in
/// the Unicode sense).
pub uninterp spec fn char_is_alphanumeric(c: char) -> bool;

/// A character that continues an identifier: `_`, or an alphanumeric one,
/// which among ASCII characters are exactly the letters and digits.
pub open spec fn is_ident_char(c: char) -> bool {
    if (c as u32) < 128 {
        ('a' <= c <= 'z') || ('A' <= c <= 'Z') || ('0' <= c <= '9') || c == '_'
    } else {
        char_is_alphanumeric(c)
    }
}

/// Skips blanks and comments. `mode` is 0 between tokens, 1 inside a `//`
/// comment (after its two slashes) and 2 inside a `/* */` comment (after its
/// opening). A comment that is not closed runs to the end of the input.
pub open spec fn skip_trivia(inp: Seq<char>, s: LexPoint, mode: nat) -> LexPoint
    decreases inp.len() - s.0, mode,
{
    match cur(inp, s.0) {
        None => s,
        Some(c) => {
            if mode == 1 {
                if c == '\n' {
                    skip_trivia(inp, s, 0)
                } else {
                    skip_trivia(inp, adv(inp, s), 1)
                }
            } else if mode == 2 {
                if c == '*' && cur(inp, s.0 + 1) == Some('/') {
                    skip_trivia(inp, adv(inp, adv(inp, s)), 0)
                } else {
                    skip_trivia(inp, adv(inp, s), 2)
                }
            } else if c == ' ' || c == '\t' || c == '\r' || c == '\n' {
                skip_trivia(inp, adv(inp, s), 0)
            } else if c == '/' && cur(inp, s.0 + 1) == Some('/') {
                skip_trivia(inp, adv(inp, adv(inp, s)), 1)
            } else if c == '/' && cur(inp, s.0 + 1) == Some('*') {
                skip_trivia(inp, adv(inp, adv(inp, s)), 2)
            } else {
                s
            }
        },
    }
}

/// The token of the given text and kind that runs from `start` to `end`.
pub open spec fn tok(
    lexeme: Seq<char>,
    kind: KindView,
    file: Seq<char>,
    start: LexPoint,
    end: LexPoint,
) -> TokenView {
    (lexeme, kind, (file, start.1 as usize, start.2 as usize, end.1 as usize, end.2 as usize))
}

/// An error token: its lexeme is the message.
pub open spec fn err_tok(msg: Seq<char>, file: Seq<char>, start: LexPoint, end: LexPoint) -> TokenView {
    tok(msg, TokenType::Invalid@, file, start, end)
}

/// A token of one character.
pub open spec fn single(inp: Seq<char>, file: Seq<char>, s: LexPoint, kind: KindView) -> (TokenView, LexPoint) {
    let e = adv(inp, s);
    (tok(seq![inp[s.0]], kind, file, s, e), e)
}

/// A token of two characters.
pub open spec fn double(
    inp: Seq<char>,
    file: Seq<char>,
    s: LexPoint,
    lexeme: Seq<char>,
    kind: KindView,
) -> (TokenView, LexPoint) {
    let e = adv(inp, adv(inp, s));
    (tok(lexeme, kind, file, s, e), e)
}

/// The end of a run of decimal digits.
pub open spec fn digits_end(inp: Seq<char>, s: LexPoint) -> LexPoint
    decreases inp.len() - s.0,
{
    match cur(inp, s.0) {
        Some(c) => if is_digit(c) {
            digits_end(inp, adv(inp, s))
        } else {
            s
        },
        None => s,
    }
}

/// The end of the characters that may continue an identifier.
pub open spec fn ident_end(inp: Seq<char>, s: LexPoint) -> LexPoint
    decreases inp.len() - s.0,
{
    match cur(inp, s.0) {
        Some(c) => if is_ident_char(c) {
            ident_end(inp, adv(inp, s))
        } else {
            s
        },
        None => s,
    }
}

pub open spec fn number_kind(text: Seq<char>) -> KindView {
    (tag_number(), text)
}

pub open spec fn string_kind(text: Seq<char>) -> KindView {
    (tag_string(), text)
}

pub open spec fn identifier_kind(text: Seq<char>) -> KindView {
    (tag_identifier(), text)
}

/// A number: digits, then optionally a dot and digits, then optionally an
/// exponent (`e` or `E`, an optional sign and at least one digit).
pub open spec fn lex_number(inp: Seq<char>, file: Seq<char>, start: LexPoint) -> (TokenView, LexPoint) {
    let s1 = digits_end(inp, start);
    let s2 = if cur(inp, s1.0) == Some('.') {
        digits_end(inp, adv(inp, s1))
    } else {
        s1
    };
    if cur(inp, s2.0) == Some('e') || cur(inp, s2.0) == Some('E') {
        let s3 = adv(inp, s2);
        let s4 = if cur(inp, s3.0) == Some('+') || cur(inp, s3.0) == Some('-') {
            adv(inp, s3)
        } else {
            s3
        };
        if !(cur(inp, s4.0) matches Some(c) && is_digit(c)) {
            (err_tok("Invalid scientific notation"@, file, start, s4), s4)
        } else {
            let s5 = digits_end(inp, s4);
            let text = inp.subrange(start.0, s5.0);
            (tok(text, number_kind(text), file, start, s5), s5)
        }
    } else {
        let text = inp.subrange(start.0, s2.0);
        (tok(text, number_kind(text), file, start, s2), s2)
    }
}

/// An identifier or a keyword: the first character (a letter or `_`) and
/// every character after it that may continue an identifier.
pub open spec fn lex_ident(inp: Seq<char>, file: Seq<char>, start: LexPoint) -> (TokenView, LexPoint) {
    let e = ident_end(inp, adv(inp, start));
    let text = inp.subrange(start.0, e.0);
    let kind = match keyword_kind(text) {
        Some(k) => k,
        None => identifier_kind(text),
    };
    (tok(text, kind, file, start, e), e)
}

/// The rest of a string literal from `s` (after the opening quote), with
/// `acc` the characters read so far.
pub open spec fn lex_string(
    inp: Seq<char>,
    file: Seq<char>,
    start: LexPoint,
    s: LexPoint,
    acc: Seq<char>,
) -> (TokenView, LexPoint)
    decreases inp.len() - s.0,
{
    match cur(inp, s.0) {
        None => (err_tok("Unterminated string"@, file, start, s), s),
        Some(c) => {
            if c == '"' {
                let e = adv(inp, s);
                (tok(acc, string_kind(acc), file, start, e), e)
            } else if c == '\\' {
                let s1 = adv(inp, s);
                match cur(inp, s1.0) {
                    None => (err_tok("Unterminated escape"@, file, start, s1), s1),
                    Some(d) => {
                        if d == 'n' {
                            lex_string(inp, file, start, adv(inp, s1), acc.push('\n'))
                        } else if d == 't' {
                            lex_string(inp, file, start, adv(inp, s1), acc.push('\t'))
                        } else if d == '"' {
                            lex_string(inp, file, start, adv(inp, s1), acc.push('"'))
                        } else if d == '\\' {
                            lex_string(inp, file, start, adv(inp, s1), acc.push('\\'))
                        } else {
                            (err_tok("Invalid escape sequence \\"@.push(d), file, start, s1), s1)
                        }
                    },
                }
            } else if c == '\n' {
                (err_tok("Unterminated string"@, file, start, s), s)
            } else {
                lex_string(inp, file, start, adv(inp, s), acc.push(c))
            }
        },
    }
}

/// Characters that stand for themselves inside a string literal: none is a
/// quote, a backslash or a line break.
pub open spec fn plain_chars(u: Seq<char>) -> bool {
    forall|i: int| 0 <= i < u.len() ==> u[i] != '"' && u[i] != '\\' && u[i] != '\n'
}

/// The point after consuming `n` characters from `s`.
pub open spec fn advanced_by(inp: Seq<char>, s: LexPoint, n: nat) -> LexPoint
    decreases n,
{
    if n == 0 {
        s
    } else {
        advanced_by(inp, adv(inp, s), (n - 1) as nat)
    }
}

/// Plain characters inside a string literal are taken as they are.
proof fn lemma_plain_run(inp: Seq<char>, file: Seq<char>, start: LexPoint, s: LexPoint, acc: Seq<char>, u: Seq<char>)
    requires
        wf_point(inp, s),
        plain_chars(u),
        s.0 + u.len() <= inp.len(),
        inp.subrange(s.0, s.0 + u.len()) == u,
    ensures
        wf_point(inp, advanced_by(inp, s, u.len())),
        advanced_by(inp, s, u.len()).0 == s.0 + u.len(),
        lex_string(inp, file, start, s, acc) == lex_string(inp, file, start, advanced_by(inp, s, u.len()), acc + u),
    decreases u.len(),
{
    if u.len() == 0 {
        assert(acc + u =~= acc);
    } else {
        let c = u[0];
        assert(inp[s.0] == inp.subrange(s.0, s.0 + u.len())[0]);
        assert(cur(inp, s.0) == Some(c));
        lemma_adv(inp, s);
        let s1 = adv(inp, s);
        let rest = u.drop_first();
        assert(inp.subrange(s1.0, s1.0 + rest.len()) =~= rest) by {
            assert forall|i: int| 0 <= i < rest.len() implies inp.subrange(s1.0, s1.0 + rest.len())[i] == rest[i] by {
                assert(inp.subrange(s.0, s.0 + u.len())[i + 1] == u[i + 1]);
            }
        }
        lemma_plain_run(inp, file, start, s1, acc.push(c), rest);
        assert(acc.push(c) + rest =~= acc + u);
        assert(advanced_by(inp, s, u.len()) == advanced_by(inp, s1, rest.len()));
    }
}

/// Inside a string literal, the escape `\n` stands for exactly one line
/// break and the plain characters around it for themselves: a literal whose
/// body is `u\nv` gives a string token whose text is `u`, a line break,
/// then `v`. A body with no escape gives its own characters.
pub proof fn law_newline_escape(
    inp: Seq<char>,
    file: Seq<char>,
    start: LexPoint,
    s: LexPoint,
    u: Seq<char>,
    v: Seq<char>,
)
    requires
        wf_point(inp, s),
        plain_chars(u),
        plain_chars(v),
        s.0 + u.len() + v.len() + 3 <= inp.len(),
        inp.subrange(s.0, s.0 + u.len() + v.len() + 3) == u + seq!['\\', 'n'] + v + seq!['"'],
    ensures
        lex_string(inp, file, start, s, Seq::empty()).0.1 == (tag_string(), u + seq!['\n'] + v),
{
    let whole = u + seq!['\\', 'n'] + v + seq!['"'];
    assert(inp.subrange(s.0, s.0 + u.len()) =~= u) by {
        assert forall|i: int| 0 <= i < u.len() implies inp.subrange(s.0, s.0 + u.len())[i] == u[i] by {
            assert(inp.subrange(s.0, s.0 + u.len() + v.len() + 3)[i] == whole[i]);
        }
    }
    lemma_plain_run(inp, file, start, s, Seq::empty(), u);
    let s1 = advanced_by(inp, s, u.len());
    assert(inp[s1.0] == whole[u.len() as int]);
    assert(inp[s1.0 + 1] == whole[(u.len() + 1) as int]);
    lemma_adv(inp, s1);
    let s2 = adv(inp, s1);
    lemma_adv(inp, s2);
    let s3 = adv(inp, s2);
    assert(Seq::<char>::empty() + u =~= u);
    assert(inp.subrange(s3.0, s3.0 + v.len()) =~= v) by {
        assert forall|i: int| 0 <= i < v.len() implies inp.subrange(s3.0, s3.0 + v.len())[i] == v[i] by {
            assert(inp.subrange(s.0, s.0 + u.len() + v.len() + 3)[u.len() + 2 + i] == whole[u.len() + 2 + i]);
        }
    }
    lemma_plain_run(inp, file, start, s3, u.push('\n'), v);
    let s4 = advanced_by(inp, s3, v.len());
    assert(inp[s4.0] == whole[(u.len() + 2 + v.len()) as int]);
    assert(u.push('\n') + v =~= u + seq!['\n'] + v);
}

/// A literal whose body is the plain characters `u` gives a string token
/// whose text is `u`.
pub proof fn law_plain_string(inp: Seq<char>, file: Seq<char>, start: LexPoint, s: LexPoint, u: Seq<char>)
    requires
        wf_point(inp, s),
        plain_chars(u),
        s.0 + u.len() + 1 <= inp.len(),
        inp.subrange(s.0, s.0 + u.len() + 1) == u + seq!['"'],
    ensures
        lex_string(inp, file, start, s, Seq::empty()).0.1 == (tag_string(), u),
{
    let whole = u + seq!['"'];
    assert(inp.subrange(s.0, s.0 + u.len()) =~= u) by {
        assert forall|i: int| 0 <= i < u.len() implies inp.subrange(s.0, s.0 + u.len())[i] == u[i] by {
            assert(inp.subrange(s.0, s.0 + u.len() + 1)[i] == whole[i]);
        }
    }
    lemma_plain_run(inp, file, start, s, Seq::empty(), u);
    let s1 = advanced_by(inp, s, u.len());
    assert(inp[s1.0] == whole[u.len() as int]);
    assert(Seq::<char>::empty() + u =~= u);
}

/// The token that starts at `s` (a character is there), and the point after it.
pub open spec fn lex_at(inp: Seq<char>, file: Seq<char>, s: LexPoint, c: char) -> (TokenView, LexPoint) {
    let next = cur(inp, s.0 + 1);
    if c == '+' {
        single(inp, file, s, TokenType::Plus@)
    } else if c == '-' {
        single(inp, file, s, TokenType::Minus@)
    } else if c == '*' {
        single(inp, file, s, TokenType::Star@)
    } else if c == '/' {
        single(inp, file, s, TokenType::Slash@)
    } else if c == '^' {
        single(inp, file, s, TokenType::Caret@)
    } else if c == '%' {
        single(inp, file, s, TokenType::Percent@)
    } else if c == '&' {
        single(inp, file, s, TokenType::Ampersand@)
    } else if c == '|' {
        single(inp, file, s, TokenType::Pipe@)
    } else if c == '=' {
        if next == Some('=') {
            double(inp, file, s, "=="@, TokenType::EqualEqual@)
        } else if next == Some('>') {
            double(inp, file, s, "=>"@, TokenType::Arrow@)
        } else {
            single(inp, file, s, TokenType::Equal@)
        }
    } else if c == '!' {
        if next == Some('=') {
            double(inp, file, s, "!="@, TokenType::BangEqual@)
        } else {
            single(inp, file, s, TokenType::Bang@)
        }
    } else if c == '<' {
        if next == Some('=') {
            double(inp, file, s, "<="@, TokenType::LessEqual@)
        } else {
            single(inp, file, s, TokenType::Less@)
        }
    } else if c == '>' {
        if next == Some('=') {
            double(inp, file, s, ">="@, TokenType::GreaterEqual@)
        } else {
            single(inp, file, s, TokenType::Greater@)
        }
    } else if c == ':' {
        if next == Some('=') {
            double(inp, file, s, ":="@, TokenType::ColonEqual@)
        } else {
            single(inp, file, s, TokenType::Colon@)
        }
    } else if c == '@' {
        if next == Some('@') {
            double(inp, file, s, "@@"@, TokenType::AtAt@)
        } else {
            single(inp, file, s, TokenType::At@)
        }
    } else if c == '(' {
        single(inp, file, s, TokenType::LeftParen@)
    } else if c == ')' {
        single(inp, file, s, TokenType::RightParen@)
    } else if c == '{' {
        single(inp, file, s, TokenType::LeftBrace@)
    } else if c == '}' {
        single(inp, file, s, TokenType::RightBrace@)
    } else if c == '[' {
        single(inp, file, s, TokenType::LeftBracket@)
    } else if c == ']' {
        single(inp, file, s, TokenType::RightBracket@)
    } else if c == ';' {
        single(inp, file, s, TokenType::Semicolon@)
    } else if c == ',' {
        single(inp, file, s, TokenType::Comma@)
    } else if c == '.' {
        single(inp, file, s, TokenType::Dot@)
    } else if c == '"' {
        lex_string(inp, file, s, adv(inp, s), Seq::<char>::empty())
    } else if is_digit(c) {
        lex_number(inp, file, s)
    } else if is_ident_start(c) {
        lex_ident(inp, file, s)
    } else {
        let e = adv(inp, s);
        (err_tok("Invalid character '"@.push(c).push('\''), file, s, e), e)
    }
}

/// The next token from point `s0`: blanks and comments are skipped first; at the
/// end of the input the token is the end-of-file token.
pub open spec fn next_token(inp: Seq<char>, file: Seq<char>, s0: LexPoint) -> (TokenView, LexPoint) {
    let s = skip_trivia(inp, s0, 0);
    match cur(inp, s.0) {
        None => (tok(Seq::<char>::empty(), TokenType::Eof@, file, s, s), s),
        Some(c) => lex_at(inp, file, s, c),
    }
}


/// The tokens from point `s` up to and including the end-of-file token.
pub open spec fn tokenize(inp: Seq<char>, file: Seq<char>, s: LexPoint) -> Seq<TokenView>
    decreases inp.len() - s.0,
    when wf_point(inp, s)
{
    let (t, e) = next_token(inp, file, s);
    proof {
        lemma_next_token(inp, file, s);
    }
    if t.1.0 == tag_eof() {
        seq![t]
    } else {
        seq![t] + tokenize(inp, file, e)
    }
}

pub proof fn lemma_adv(inp: Seq<char>, s: LexPoint)
    requires
        wf_point(inp, s),
    ensures
        wf_point(inp, adv(inp, s)),
        s.0 < inp.len() ==> adv(inp, s).0 == s.0 + 1,
        s.0 == inp.len() ==> adv(inp, s) == s,
{
}

pub proof fn lemma_skip_trivia(inp: Seq<char>, s: LexPoint, mode: nat)
    requires
        wf_point(inp, s),
    ensures
        wf_point(inp, skip_trivia(inp, s, mode)),
        skip_trivia(inp, s, mode).0 >= s.0,
    decreases inp.len() - s.0, mode,
{
    lemma_adv(inp, s);
    lemma_adv(inp, adv(inp, s));
    match cur(inp, s.0) {
        None => {},
        Some(c) => {
            if mode == 1 {
                if c == '\n' {
                    lemma_skip_trivia(inp, s, 0);
                } else {
                    lemma_skip_trivia(inp, adv(inp, s), 1);
                }
            } else if mode == 2 {
                if c == '*' && cur(inp, s.0 + 1) == Some('/') {
                    lemma_skip_trivia(inp, adv(inp, adv(inp, s)), 0);
                } else {
                    lemma_skip_trivia(inp, adv(inp, s), 2);
                }
            } else if c == ' ' || c == '\t' || c == '\r' || c == '\n' {
                lemma_skip_trivia(inp, adv(inp, s), 0);
            } else if c == '/' && cur(inp, s.0 + 1) == Some('/') {
                lemma_skip_trivia(inp, adv(inp, adv(inp, s)), 1);
            } else if c == '/' && cur(inp, s.0 + 1) == Some('*') {
                lemma_skip_trivia(inp, adv(inp, adv(inp, s)), 2);
            }
        },
    }
}

pub proof fn lemma_digits_end(inp: Seq<char>, s: LexPoint)
    requires
        wf_point(inp, s),
    ensures
        wf_point(inp, digits_end(inp, s)),
        digits_end(inp, s).0 >= s.0,
        (cur(inp, s.0) matches Some(c) && is_digit(c)) ==> digits_end(inp, s).0 > s.0,
    decreases inp.len() - s.0,
{
    lemma_adv(inp, s);
    if cur(inp, s.0) matches Some(c) && is_digit(c) {
        lemma_digits_end(inp, adv(inp, s));
    }
}

pub proof fn lemma_ident_end(inp: Seq<char>, s: LexPoint)
    requires
        wf_point(inp, s),
    ensures
        wf_point(inp, ident_end(inp, s)),
        ident_end(inp, s).0 >= s.0,
    decreases inp.len() - s.0,
{
    lemma_adv(inp, s);
    if cur(inp, s.0) matches Some(c) && is_ident_char(c) {
        lemma_ident_end(inp, adv(inp, s));
    }
}

pub proof fn lemma_lex_string(inp: Seq<char>, file: Seq<char>, start: LexPoint, s: LexPoint, acc: Seq<char>)
    requires
        wf_point(inp, s),
    ensures
        wf_point(inp, lex_string(inp, file, start, s, acc).1),
        lex_string(inp, file, start, s, acc).1.0 >= s.0,
        lex_string(inp, file, start, s, acc).0.1.0 != tag_eof(),
    decreases inp.len() - s.0,
{
    lemma_adv(inp, s);
    lemma_adv(inp, adv(inp, s));
    let s1 = adv(inp, s);
    match cur(inp, s.0) {
        None => {},
        Some(c) => {
            if c == '"' {
            } else if c == '\\' {
                match cur(inp, s1.0) {
                    None => {},
                    Some(d) => {
                        if d == 'n' {
                            lemma_lex_string(inp, file, start, adv(inp, s1), acc.push('\n'));
                        } else if d == 't' {
                            lemma_lex_string(inp, file, start, adv(inp, s1), acc.push('\t'));
                        } else if d == '"' {
                            lemma_lex_string(inp, file, start, adv(inp, s1), acc.push('"'));
                        } else if d == '\\' {
                            lemma_lex_string(inp, file, start, adv(inp, s1), acc.push('\\'));
                        }
                    },
                }
            } else if c == '\n' {
            } else {
                lemma_lex_string(inp, file, start, adv(inp, s), acc.push(c));
            }
        },
    }
}

pub proof fn lemma_lex_number(inp: Seq<char>, file: Seq<char>, start: LexPoint)
    requires
        wf_point(inp, start),
        cur(inp, start.0) matches Some(c) && is_digit(c),
    ensures
        wf_point(inp, lex_number(inp, file, start).1),
        lex_number(inp, file, start).1.0 > start.0,
        lex_number(inp, file, start).0.1.0 != tag_eof(),
{
    let s1 = digits_end(inp, start);
    lemma_digits_end(inp, start);
    lemma_adv(inp, s1);
    lemma_digits_end(inp, adv(inp, s1));
    let s2 = if cur(inp, s1.0) == Some('.') {
        digits_end(inp, adv(inp, s1))
    } else {
        s1
    };
    let s3 = adv(inp, s2);
    lemma_adv(inp, s2);
    lemma_adv(inp, s3);
    let s4 = if cur(inp, s3.0) == Some('+') || cur(inp, s3.0) == Some('-') {
        adv(inp, s3)
    } else {
        s3
    };
    lemma_digits_end(inp, s4);
}

pub proof fn lemma_lex_at(inp: Seq<char>, file: Seq<char>, s: LexPoint, c: char)
    requires
        wf_point(inp, s),
        cur(inp, s.0) == Some(c),
    ensures
        wf_point(inp, lex_at(inp, file, s, c).1),
        lex_at(inp, file, s, c).1.0 > s.0,
        lex_at(inp, file, s, c).0.1.0 != tag_eof(),
{
    lemma_adv(inp, s);
    lemma_adv(inp, adv(inp, s));
    if c == '"' {
        lemma_lex_string(inp, file, s, adv(inp, s), Seq::<char>::empty());
    } else if is_digit(c) {
        lemma_lex_number(inp, file, s);
    } else if is_ident_start(c) {
        lemma_ident_end(inp, adv(inp, s));
    }
}

/// The lexer makes progress: a token other than end-of-file consumes at least
/// one character, and end-of-file is only given at the end of the input.
pub proof fn lemma_next_token(inp: Seq<char>, file: Seq<char>, s: LexPoint)
    requires
        wf_point(inp, s),
    ensures
        wf_point(inp, next_token(inp, file, s).1),
        next_token(inp, file, s).1.0 >= s.0,
        next_token(inp, file, s).0.1.0 != tag_eof() ==> next_token(inp, file, s).1.0 > s.0,
        next_token(inp, file, s).0.1.0 == tag_eof() ==> next_token(inp, file, s).1.0 == inp.len(),
{
    let s1 = skip_trivia(inp, s, 0);
    lemma_skip_trivia(inp, s, 0);
    match cur(inp, s1.0) {
        None => {},
        Some(c) => {
            lemma_lex_at(inp, file, s1, c);
        },
    }
}

/// Tokenizing always ends with the end-of-file token, and with no other: the
/// stream is never empty, its last token is end-of-file and none before it is.
pub proof fn law_tokenize_ends_with_one_eof(inp: Seq<char>, file: Seq<char>, s: LexPoint)
    requires
        wf_point(inp, s),
    ensures
        tokenize(inp, file, s).len() >= 1,
        tokenize(inp, file, s).last().1.0 == tag_eof(),
        forall|i: int|
            0 <= i < tokenize(inp, file, s).len() - 1 ==> #[trigger] tokenize(inp, file, s)[i].1.0
                != tag_eof(),
    decreases inp.len() - s.0,
{
    lemma_next_token(inp, file, s);
    let (t, e) = next_token(inp, file, s);
    if t.1.0 != tag_eof() {
        law_tokenize_ends_with_one_eof(inp, file, e);
        let rest = tokenize(inp, file, e);
        assert forall|i: int| 0 <= i < tokenize(inp, file, s).len() - 1 implies #[trigger] tokenize(
            inp,
            file,
            s,
        )[i].1.0 != tag_eof() by {
            if i > 0 {
                assert(tokenize(inp, file, s)[i] == rest[i - 1]);
            }
        }
    }
}

/// The end-of-file token stands where the input ends: tokenizing from the end
/// of the input gives that token alone, again and again.
pub proof fn law_eof_is_stable(inp: Seq<char>, file: Seq<char>, s: LexPoint)
    requires
        wf_point(inp, s),
        next_token(inp, file, s).0.1.0 == tag_eof(),
    ensures
        next_token(inp, file, next_token(inp, file, s).1) == next_token(inp, file, s),
{
    let s1 = skip_trivia(inp, s, 0);
    lemma_skip_trivia(inp, s, 0);
    match cur(inp, s1.0) {
        None => {
            assert(skip_trivia(inp, s1, 0) == s1);
        },
        Some(c) => {
            lemma_lex_at(inp, file, s1, c);
        },
    }
}

} // verus!
