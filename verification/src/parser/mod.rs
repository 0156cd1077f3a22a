use vstd::prelude::*;

pub mod ast;
pub mod cursor;
pub mod precedence;

pub use ast::{Declaration, Expr, Literal, Program, TypeReference};
pub use cursor::TokenCursor;

use crate::errors::ParserError;
use crate::parser::ast::{
    AttributeDeclaration, BinaryOperator, DeclarationKind, ExprKind, FunctionDeclaration, Parameter,
    ProtocolDeclaration, ProtocolMethodSignature, TypeDeclaration, TypeMember, TypeReferenceKind, UnaryOperator,
};
use crate::lexer::token::{tag_eof, TokenView};
use crate::lexer::{Token, TokenType};
use crate::span::{Span, SpanView};
use crate::text::string_from;
use crate::parser::precedence::{
    at_chain, chain_progress, lemma_chain_follow, lemma_chain_next, lemma_chain_stop, lemma_progress_end, lemma_progress_next,
    lemma_progress_start, lemma_progress_step, lemma_split, parsed_chain, strength, tag_at, chain_stop, chain_tree, chain_from,
};

verus! {

/// A syntax error and where it was found.
#[derive(Debug, Clone, PartialEq)]
pub struct ParserDiagnostic {
    pub error: ParserError,
    pub span: Span,
}

/// A recursive-descent parser over a list of tokens that ends with the
/// end-of-file token. Syntax errors do not stop it: they are collected, and
/// parsing resumes at the next synchronisation point.
#[derive(Debug, Clone)]
pub struct Parser {
    cursor: TokenCursor,
    errors: Vec<ParserDiagnostic>,
}

/// The list ends with the end-of-file token.
pub open spec fn ends_with_eof(toks: Seq<TokenView>) -> bool {
    toks.len() > 0 && toks.last().1.0 == tag_eof()
}

/// The position after `p`, never past the last token.
pub open spec fn next_of(toks: Seq<TokenView>, p: int) -> int {
    if p < toks.len() - 1 {
        p + 1
    } else {
        p
    }
}

/// The token kinds at which error recovery stops without consuming them.
pub open spec fn is_sync_kind(t: nat) -> bool {
    t == 11 || t == 12 || t == 13 || t == 17 || t == 5 || t == 8 || t == 9 || t == 45
}

/// Where error recovery that starts looking at position `p` comes to rest:
/// just past the first `;`, or on the first token that starts a declaration or
/// a control expression, or on `}`, or at the end of the input.
pub open spec fn sync_stop(toks: Seq<TokenView>, p: int) -> int
    decreases toks.len() - p,
{
    if !(0 <= p < toks.len()) || toks[p].1.0 == tag_eof() {
        p
    } else if toks[p].1.0 == 48 {
        next_of(toks, p)
    } else if is_sync_kind(toks[p].1.0) {
        p
    } else if p >= toks.len() - 1 {
        p
    } else {
        sync_stop(toks, p + 1)
    }
}

/// The text that names the token kind `tag` in an "unexpected token" error.
pub open spec fn expected_text(tag: nat) -> Seq<char> {
    if tag == 44 {
        "{"@
    } else if tag == 45 {
        "}"@
    } else if tag == 42 {
        "("@
    } else if tag == 43 {
        ")"@
    } else if tag == 46 {
        "["@
    } else if tag == 47 {
        "]"@
    } else if tag == 48 {
        ";"@
    } else if tag == 49 {
        ","@
    } else if tag == 51 {
        ":"@
    } else if tag == 39 {
        "="@
    } else if tag == 40 {
        ":="@
    } else if tag == 41 {
        "=>"@
    } else if tag == 11 {
        "let"@
    } else if tag == 5 {
        "if"@
    } else if tag == 6 {
        "elif"@
    } else if tag == 7 {
        "else"@
    } else if tag == 8 {
        "while"@
    } else if tag == 9 {
        "for"@
    } else if tag == 10 {
        "in"@
    } else if tag == 12 {
        "Function"@
    } else if tag == 13 {
        "Type"@
    } else {
        "Protocol"@
    }
}

/// The token kinds the parser ever demands.
pub open spec fn expectable(tag: nat) -> bool {
    (39 <= tag <= 49) || tag == 51 || (5 <= tag <= 13) || tag == 17
}

/// `e` is an "unexpected token" error with these texts.
pub open spec fn is_unexpected(e: ParserError, expected: Seq<char>, found: Seq<char>) -> bool {
    e matches ParserError::UnexpectedToken { expected: x, found: y } && x@ == expected && y@ == found
}

/// `b` is what `a` becomes by parsing on: the same tokens, a position no
/// earlier, and the errors of `a` followed by any new ones.
pub open spec fn steps(a: Parser, b: Parser) -> bool {
    &&& b.wf()
    &&& b.toks() == a.toks()
    &&& a.pos() <= b.pos()
    &&& a.diags().len() <= b.diags().len()
    &&& forall|i: int| 0 <= i < a.diags().len() ==> #[trigger] b.diags()[i] == a.diags()[i]
}

/// Unless `a` was at the end of the input, `b` is past where `a` was.
pub open spec fn advanced(a: Parser, b: Parser) -> bool {
    a.current_tag() != tag_eof() ==> b.pos() > a.pos()
}

/// What parsing one expression takes `a` to `b` and gives `e` (see
/// `parse_expression`): progress, a lone atom as itself, and an operator
/// chain grouped by strength.
pub open spec fn expression_parsed(a: Parser, b: Parser, e: Expr) -> bool {
    &&& steps(a, b)
    &&& advanced(a, b)
    &&& (at_lone_atom(a) ==> took_atom(a, b, e))
    &&& (at_chain(a) ==> parsed_chain(a, b, e, 1nat))
}

/// `b` is `a` past its current token, which has kind `tag`, with no new error.
pub open spec fn consumed(a: Parser, b: Parser, tag: nat) -> bool {
    &&& a.current_tag() == tag
    &&& b.toks() == a.toks()
    &&& b.pos() == a.next_pos()
    &&& b.diags() == a.diags()
}

/// The expressions `es`, each parsed from `starts[k]` to `ends[k]`, each but
/// the last followed by a `,` that leads to the next; the last is not
/// followed by a `,`.
pub open spec fn comma_separated(starts: Seq<Parser>, ends: Seq<Parser>, es: Seq<Expr>) -> bool {
    &&& starts.len() == es.len()
    &&& ends.len() == es.len()
    &&& forall|k: int| 0 <= k < es.len() ==> #[trigger] expression_parsed(starts[k], ends[k], es[k])
    &&& forall|k: int| 1 <= k < es.len() ==> consumed(ends[k - 1], #[trigger] starts[k], 49)
    &&& es.len() > 0 ==> ends.last().current_tag() != 49
}

/// `a` and `b` stand at the same place, with the same errors.
pub open spec fn same_place(a: Parser, b: Parser) -> bool {
    &&& a.toks() == b.toks()
    &&& a.pos() == b.pos()
    &&& a.diags() == b.diags()
}

/// One `elif (cond) body` branch: `st.0` on `elif` followed by `(`; the
/// condition parsed from `st.1`, just past the `(`, to `st.2`; the `)`
/// consumed from there to `st.3` when it is there (else an error is
/// recorded and the parser skips ahead); the body parsed from `st.3` to `st.4`.
pub open spec fn elif_branch(st: (Parser, Parser, Parser, Parser, Parser), cond: Expr, body: Expr) -> bool {
    &&& st.0.current_tag() == 6
    &&& tag_at(st.0.toks(), st.0.next_pos()) == 42
    &&& st.1.toks() == st.0.toks()
    &&& st.1.pos() == next_of(st.0.toks(), st.0.next_pos())
    &&& st.1.diags() == st.0.diags()
    &&& expression_parsed(st.1, st.2, cond)
    &&& steps(st.2, st.3)
    &&& (st.2.current_tag() == 43 ==> consumed(st.2, st.3, 43))
    &&& (st.2.current_tag() != 43 ==> st.3.diags().len() == st.2.diags().len() + 1)
    &&& expression_parsed(st.3, st.4, body)
}

/// The `elif` branches `ps`, parsed one after another from `start`, each
/// starting where the one before it ended; `end` is where they end: on a
/// token other than `elif`, or past an `elif` without `(` (an error is
/// recorded and the parser skips ahead).
pub open spec fn elif_chain(start: Parser, bs: Seq<(Parser, Parser, Parser, Parser, Parser)>, ps: Seq<(Expr, Expr)>, end: Parser) -> bool {
    let at = if bs.len() > 0 {
        bs.last().4
    } else {
        start
    };
    &&& bs.len() == ps.len()
    &&& forall|k: int| 0 <= k < ps.len() ==> #[trigger] elif_branch(bs[k], ps[k].0, ps[k].1)
    &&& bs.len() > 0 ==> same_place(bs[0].0, start)
    &&& forall|k: int| 1 <= k < bs.len() ==> same_place(#[trigger] bs[k].0, bs[k - 1].4)
    &&& steps(at, end)
    &&& (at.current_tag() != 6 ==> same_place(end, at))
    &&& (at.current_tag() == 6 ==> tag_at(at.toks(), at.next_pos()) != 42 && end.diags().len() == at.diags().len() + 1)
}

/// A vector comprehension `element || x in iterable` parsed from `a`: the
/// element from `a` to `st.0`, `||` consumed to `st.1`, which stands on the
/// name bound, `in` after it consumed from `st.2` to `st.3`, the iterable
/// parsed from `st.3` to `st.4`.
pub open spec fn comprehension_parsed(
    a: Parser,
    st: (Parser, Parser, Parser, Parser, Parser),
    element: Expr,
    binding: Seq<char>,
    iterable: Expr,
) -> bool {
    &&& expression_parsed(a, st.0, element)
    &&& consumed(st.0, st.1, 37)
    &&& st.1.current_tag() == 4
    &&& binding == st.1.current().1.1
    &&& consumed(st.1, st.2, 4)
    &&& consumed(st.2, st.3, 10)
    &&& expression_parsed(st.3, st.4, iterable)
}

/// Parsing `while (c) body` from `a` to `b` gave `e`: `a` stands on
/// `while` followed by `(`; the condition of `e` is parsed from `st.0`, just
/// past the `(`, to `st.1`; the `)` is consumed from there to `st.2` when it is
/// there (else an error is recorded and the parser skips ahead); the body of
/// `e` is parsed from `st.2` to `b`.
pub open spec fn while_steps(a: Parser, b: Parser, e: Expr, st: (Parser, Parser, Parser)) -> bool {
    &&& a.current_tag() == 8
    &&& tag_at(a.toks(), a.next_pos()) == 42
    &&& st.0.toks() == a.toks()
    &&& st.0.pos() == next_of(a.toks(), a.next_pos())
    &&& st.0.diags() == a.diags()
    &&& steps(st.1, st.2)
    &&& (st.1.current_tag() == 43 ==> consumed(st.1, st.2, 43))
    &&& (st.1.current_tag() != 43 ==> st.2.diags().len() == st.1.diags().len() + 1)
    &&& match e.kind {
        ExprKind::While { condition, body } => expression_parsed(st.0, st.1, *condition) && expression_parsed(
            st.2,
            b,
            *body,
        ),
        _ => false,
    }
}

/// Parsing `while (c) body` from `a` to `b` gave `e` (see `while_steps`).
pub open spec fn while_parsed(a: Parser, b: Parser, e: Expr) -> bool {
    exists|st: (Parser, Parser, Parser)| #[trigger] while_steps(a, b, e, st)
}

/// In `while (c) body` parsed from `a`, the condition is the expression of
/// exactly the tokens between the parentheses, and the body is parsed from
/// just past the `)`: where the tokens after `(` form an operator chain that
/// the `)` closes, the condition is that chain's expression; where the tokens
/// after the `)` form an operator chain too, the body is that chain's
/// expression and parsing ends where that chain ends.
pub proof fn law_while_condition_then_body(a: Parser, b: Parser, e: Expr)
    requires
        a.wf(),
        while_parsed(a, b, e),
        chain_from(a.toks(), a.pos() + 2),
        tag_at(a.toks(), chain_stop(a.toks(), a.pos() + 3, 1)) == 43,
    ensures
        e.kind matches ExprKind::While { condition, body } && {
            let rp = chain_stop(a.toks(), a.pos() + 3, 1);
            &&& chain_tree(*condition, a.toks(), a.pos() + 2, rp)
            &&& chain_from(a.toks(), rp + 1) ==> {
                &&& chain_tree(*body, a.toks(), rp + 1, chain_stop(a.toks(), rp + 2, 1))
                &&& b.pos() == chain_stop(a.toks(), rp + 2, 1)
            }
        },
{
    let st = choose|st: (Parser, Parser, Parser)| #[trigger] while_steps(a, b, e, st);
    let toks = a.toks();
    let rp = chain_stop(toks, a.pos() + 3, 1);
    assert(a.next_pos() == a.pos() + 1);
    assert(st.0.pos() == a.pos() + 2);
    assert(at_chain(st.0));
    lemma_chain_stop(toks, a.pos() + 2, 1);
    assert(st.1.pos() == rp);
    assert(st.1.current_tag() == 43);
    assert(st.2.pos() == rp + 1);
}

/// `m` is the member that starts where `p` stands: a method, on `function`
/// followed by its name, or an attribute, on its name.
pub open spec fn member_at(p: Parser, m: TypeMember) -> bool {
    match m {
        TypeMember::Method(f) => p.current_tag() == 12 && tag_at(p.toks(), p.next_pos()) == 4 && f.name@
            == p.toks()[p.next_pos()].1.1,
        TypeMember::Attribute(a) => p.current_tag() == 4 && a.name@ == p.current().1.1,
    }
}

/// The members `ms`, in order, start at the places `starts`, one after
/// another, all past `a`.
pub open spec fn members_from(a: Parser, starts: Seq<Parser>, ms: Seq<TypeMember>) -> bool {
    &&& starts.len() == ms.len()
    &&& forall|k: int| 0 <= k < ms.len() ==> #[trigger] member_at(starts[k], ms[k])
    &&& forall|k: int| 0 <= k < ms.len() ==> (#[trigger] starts[k]).toks() == a.toks() && a.pos() < starts[k].pos()
    &&& forall|k: int| 1 <= k < ms.len() ==> starts[k - 1].pos() < (#[trigger] starts[k]).pos()
}

/// `d` is the declaration that starts where `p` stands: on `function`,
/// `type` or `protocol` as its kind says, followed by its name.
pub open spec fn declaration_at(p: Parser, d: Declaration) -> bool {
    &&& tag_at(p.toks(), p.next_pos()) == 4
    &&& match d.kind {
        DeclarationKind::Function(f) => p.current_tag() == 12 && f.name@ == p.toks()[p.next_pos()].1.1,
        DeclarationKind::Type(t) => p.current_tag() == 13 && t.name@ == p.toks()[p.next_pos()].1.1,
        DeclarationKind::Protocol(q) => p.current_tag() == 17 && q.name@ == p.toks()[p.next_pos()].1.1,
    }
}

/// The declarations `ds`, in order, start at the places `starts`, one
/// after another, none before `a`.
pub open spec fn declarations_from(a: Parser, starts: Seq<Parser>, ds: Seq<Declaration>) -> bool {
    &&& starts.len() == ds.len()
    &&& forall|k: int| 0 <= k < ds.len() ==> #[trigger] declaration_at(starts[k], ds[k])
    &&& forall|k: int| 0 <= k < ds.len() ==> (#[trigger] starts[k]).toks() == a.toks() && a.pos() <= starts[k].pos()
    &&& forall|k: int| 1 <= k < ds.len() ==> starts[k - 1].pos() < (#[trigger] starts[k]).pos()
}

/// `x` is where the entry expression of a program parsed from `a` starts:
/// past the declarations, on a token that starts no declaration and is
/// neither `;` nor the end.
pub open spec fn entry_at(a: Parser, starts: Seq<Parser>, x: Parser) -> bool {
    &&& x.toks() == a.toks()
    &&& a.pos() <= x.pos()
    &&& starts.len() > 0 ==> starts.last().pos() < x.pos()
    &&& x.current_tag() != 12 && x.current_tag() != 13 && x.current_tag() != 17
    &&& x.current_tag() != 48 && x.current_tag() != 54
}

/// The program `p` parsed from `a`: its declarations start at `starts`,
/// and its entry expression, if any, is parsed from `x` to `y`.
pub open spec fn program_parsed(a: Parser, starts: Seq<Parser>, x: Parser, y: Parser, p: Program) -> bool {
    &&& declarations_from(a, starts, p.declarations@)
    &&& p.entry_expression matches Some(e) ==> entry_at(a, starts, x) && expression_parsed(x, y, e)
}

/// Parsing a program from `a` ends at `b` and gives `p` (see `parse_program`).
pub open spec fn program_run(a: Parser, b: Parser, p: Program) -> bool {
    &&& steps(a, b)
    &&& exists|starts: Seq<Parser>, x: Parser, y: Parser|
        #![trigger program_parsed(a, starts, x, y, p)]
        program_parsed(a, starts, x, y, p)
    &&& p.entry_expression is None ==> b.current_tag() == 54
}

impl Parser {
    /// The tokens, as plain values.
    pub closed spec fn toks(&self) -> Seq<TokenView> {
        self.cursor.toks()
    }

    /// The index of the current token.
    pub closed spec fn pos(&self) -> int {
        self.cursor.pos()
    }

    /// The syntax errors found so far, in the order found.
    pub closed spec fn diags(&self) -> Seq<ParserDiagnostic> {
        self.errors@
    }

    /// The cursor over the tokens.
    pub closed spec fn cur(&self) -> TokenCursor {
        self.cursor
    }

    /// The tokens end with the end-of-file token and the position is on one of them.
    pub open spec fn wf(&self) -> bool {
        ends_with_eof(self.toks()) && 0 <= self.pos() < self.toks().len()
    }

    pub open spec fn current(&self) -> TokenView {
        self.toks()[self.pos()]
    }

    pub open spec fn current_tag(&self) -> nat {
        self.current().1.0
    }

    pub open spec fn next_pos(&self) -> int {
        next_of(self.toks(), self.pos())
    }

    /// How many tokens stand before the last one, from the current position.
    pub open spec fn remaining(&self) -> nat {
        if self.pos() < self.toks().len() - 1 {
            (self.toks().len() - 1 - self.pos()) as nat
        } else {
            0
        }
    }

    /// A parser at the first of `tokens`, with no errors.
    pub fn new(tokens: Vec<Token>) -> (p: Parser)
        ensures
            p.toks() == tokens@.map_values(|t: Token| t@),
            p.pos() == 0,
            p.diags() == Seq::<ParserDiagnostic>::empty(),
    {
        Parser { cursor: TokenCursor::new(tokens), errors: Vec::new() }
    }

    /// The errors found so far.
    pub fn errors(&self) -> (r: &[ParserDiagnostic])
        ensures
            r@ == self.diags(),
    {
        self.errors.as_slice()
    }

    /// Hands out the errors found so far and forgets them.
    pub fn take_errors(&mut self) -> (r: Vec<ParserDiagnostic>)
        ensures
            r@ == old(self).diags(),
            final(self).diags() == Seq::<ParserDiagnostic>::empty(),
            final(self).toks() == old(self).toks(),
            final(self).pos() == old(self).pos(),
    {
        let mut r: Vec<ParserDiagnostic> = Vec::new();
        std::mem::swap(&mut r, &mut self.errors);
        r
    }

    pub fn cursor(&self) -> (r: &TokenCursor)
        ensures
            *r == self.cur(),
    {
        &self.cursor
    }

    /// The cursor, to move by hand. The errors stay as they are.
    pub fn cursor_mut(&mut self) -> (r: &mut TokenCursor)
        ensures
            *r == old(self).cur(),
            final(self).cur() == *final(r),
            final(self).diags() == old(self).diags(),
    {
        &mut self.cursor
    }

    fn advance(&mut self) -> (t: Token)
        requires
            old(self).wf(),
        ensures
            steps(*old(self), *final(self)),
            final(self).pos() == old(self).next_pos(),
            final(self).diags() == old(self).diags(),
            t@ == old(self).current(),
    {
        self.cursor.advance()
    }

    fn check(&self, tag: u8) -> (r: bool)
        requires
            self.wf(),
        ensures
            r == (self.current_tag() == tag as nat),
    {
        self.cursor.check_tag(tag)
    }

    fn match_tag(&mut self, tag: u8) -> (r: bool)
        requires
            old(self).wf(),
        ensures
            steps(*old(self), *final(self)),
            final(self).diags() == old(self).diags(),
            r == (old(self).current_tag() == tag as nat),
            final(self).pos() == if r {
                old(self).next_pos()
            } else {
                old(self).pos()
            },
    {
        self.cursor.match_tag(tag)
    }

    fn peek_span(&self) -> (s: Span)
        requires
            self.wf(),
        ensures
            s@ == self.current().2,
    {
        self.cursor.peek().span.clone()
    }

    fn peek_lexeme(&self) -> (s: String)
        requires
            self.wf(),
        ensures
            s@ == self.current().0,
    {
        self.cursor.peek().lexeme.clone()
    }

    /// Records `error` at the current token.
    fn error(&mut self, error: ParserError)
        requires
            old(self).wf(),
        ensures
            steps(*old(self), *final(self)),
            final(self).pos() == old(self).pos(),
            final(self).diags().len() == old(self).diags().len() + 1,
            final(self).diags().last().error == error,
            final(self).diags().last().span@ == old(self).current().2,
    {
        let span = self.peek_span();
        self.error_at(error, span);
    }

    /// Records `error` at `span`.
    fn error_at(&mut self, error: ParserError, span: Span)
        requires
            old(self).wf(),
        ensures
            steps(*old(self), *final(self)),
            final(self).pos() == old(self).pos(),
            final(self).diags() == old(self).diags().push(ParserDiagnostic { error, span }),
    {
        self.errors.push(ParserDiagnostic { error, span });
    }

    /// Consumes the current token when it has kind `tag`; otherwise records
    /// an "unexpected token" error and stays.
    fn expect(&mut self, tag: u8) -> (r: Result<Token, ParserError>)
        requires
            old(self).wf(),
            expectable(tag as nat),
        ensures
            steps(*old(self), *final(self)),
            old(self).current_tag() == tag as nat ==> {
                &&& r matches Ok(t) && t@ == old(self).current()
                &&& final(self).pos() == old(self).next_pos()
                &&& final(self).diags() == old(self).diags()
            },
            old(self).current_tag() != tag as nat ==> {
                &&& r matches Err(e) && is_unexpected(e, expected_text(tag as nat), old(self).current().0)
                &&& final(self).pos() == old(self).pos()
                &&& final(self).diags().len() == old(self).diags().len() + 1
                &&& is_unexpected(final(self).diags().last().error, expected_text(tag as nat), old(self).current().0)
                &&& final(self).diags().last().span@ == old(self).current().2
            },
    {
        if self.check(tag) {
            Ok(self.advance())
        } else {
            let found = self.peek_lexeme();
            let expected = expected_str(tag);
            let error = ParserError::UnexpectedToken { expected: string_from(expected), found: found.clone() };
            self.error(error);
            Err(ParserError::UnexpectedToken { expected: string_from(expected), found })
        }
    }

    /// Error recovery: skips the current token, then tokens up to a
    /// synchronisation point (see `sync_stop`).
    fn synchronize(&mut self)
        requires
            old(self).wf(),
        ensures
            steps(*old(self), *final(self)),
            final(self).diags() == old(self).diags(),
            final(self).pos() == sync_stop(old(self).toks(), old(self).next_pos()),
            final(self).pos() >= old(self).next_pos(),
    {
        self.advance();
        let ghost target = sync_stop(self.toks(), self.pos());
        let ghost first = self.pos();
        let ghost start = *self;
        while !self.check(54)
            invariant
                steps(start, *self),
                steps(*old(self), *self),
                self.diags() == old(self).diags(),
                sync_stop(self.toks(), self.pos()) == target,
                target == sync_stop(old(self).toks(), old(self).next_pos()),
                first == old(self).next_pos(),
                self.pos() >= first,
            decreases self.remaining(),
        {
            if self.check(48) {
                self.advance();
                return;
            }
            let t = self.cursor.peek().token_type.tag();
            if t == 11 || t == 12 || t == 13 || t == 17 || t == 5 || t == 8 || t == 9 || t == 45 {
                return;
            }
            self.advance();
        }
    }

    /// Whether the current token ends an expression: `;`, `}` or the end of input.
    pub fn is_expression_terminator(&self) -> (r: bool)
        requires
            self.wf(),
        ensures
            r == (self.current_tag() == 48 || self.current_tag() == 45 || self.current_tag() == tag_eof()),
    {
        self.check(48) || self.check(45) || self.check(54)
    }
}



impl Parser {
    /// An expression: a `let`, `if`, `while` or `for` expression, a block, or
    /// an assignment or operator expression.
    pub fn parse_expression(&mut self) -> (e: Expr)
        requires
            old(self).wf(),
        ensures
            expression_parsed(*old(self), *final(self), e),
            old(self).current_tag() == 8 && tag_at(old(self).toks(), old(self).next_pos()) == 42 ==> while_parsed(
                *old(self),
                *final(self),
                e,
            ),
        decreases old(self).remaining(), 40nat,
    {
        if self.check(11) {
            self.parse_let_binding()
        } else if self.check(5) {
            self.parse_if_expr()
        } else if self.check(8) {
            self.parse_while_expr()
        } else if self.check(9) {
            self.parse_for_expr()
        } else if self.check(44) {
            self.parse_block()
        } else {
            self.parse_assignment_expr()
        }
    }

    /// `{ e1; e2; ... }`; the `;` after the last expression may be left out.
    fn parse_block(&mut self) -> (e: Expr)
        requires
            old(self).wf(),
        ensures
            steps(*old(self), *final(self)),
            old(self).current_tag() == 44 ==> final(self).pos() > old(self).pos(),
        decreases old(self).remaining(), 20nat,
    {
        let start_span = match self.expect(44) {
            Ok(t) => t.span,
            Err(_) => {
                return placeholder(self.peek_span());
            },
        };
        let mut expressions: Vec<Expr> = Vec::new();
        while !self.check(45) && !self.check(54)
            invariant
                steps(*old(self), *self),
                self.pos() > old(self).pos(),
            decreases self.remaining(),
        {
            let expr = self.parse_expression();
            expressions.push(expr);
            if !self.check(45) {
                match self.expect(48) {
                    Ok(_) => {},
                    Err(_) => {
                        self.synchronize();
                    },
                }
            }
        }
        let end_span = match self.expect(45) {
            Ok(t) => t.span,
            Err(_) => {
                self.synchronize();
                self.peek_span()
            },
        };
        let span = start_span.merge(&end_span);
        Expr::block(expressions, span)
    }

    /// `let x = v, y: T = w in body`, as nested `let` expressions.
    fn parse_let_binding(&mut self) -> (e: Expr)
        requires
            old(self).wf(),
        ensures
            steps(*old(self), *final(self)),
            old(self).current_tag() == 11 ==> final(self).pos() > old(self).pos(),
        decreases old(self).remaining(), 20nat,
    {
        let start_span = match self.expect(11) {
            Ok(t) => t.span,
            Err(_) => {
                return placeholder(self.peek_span());
            },
        };
        let mut bindings: Vec<(String, Option<TypeReference>, Expr)> = Vec::new();
        match self.parse_single_let_binding() {
            Some(b) => bindings.push(b),
            None => {},
        }
        while self.match_tag(49)
            invariant
                steps(*old(self), *self),
                self.pos() > old(self).pos(),
            decreases self.remaining(),
        {
            match self.parse_single_let_binding() {
                Some(b) => bindings.push(b),
                None => {
                    break;
                },
            }
        }
        match self.expect(10) {
            Ok(_) => {},
            Err(_) => {
                self.synchronize();
                return placeholder(start_span);
            },
        }
        let body = self.parse_expression();
        let mut expr = body;
        while bindings.len() > 0
            invariant
                steps(*old(self), *self),
                self.pos() > old(self).pos(),
            decreases bindings.len(),
        {
            let (name, annotation, value) = bindings.pop().unwrap();
            let span = start_span.merge(&expr.span);
            expr = Expr::let_expr(name, annotation, value, expr, span);
        }
        expr
    }

    /// `x = v` or `x: T = v`, inside a `let`.
    fn parse_single_let_binding(&mut self) -> (r: Option<(String, Option<TypeReference>, Expr)>)
        requires
            old(self).wf(),
        ensures
            steps(*old(self), *final(self)),
            old(self).current_tag() == 4 ==> final(self).pos() > old(self).pos(),
        decreases old(self).remaining(), 5nat,
    {
        if !self.check(4) {
            self.error(ParserError::ExpectedVariableName);
            return None;
        }
        let name_token = self.advance();
        let name = identifier_text(name_token.token_type);
        let annotation = if self.match_tag(51) {
            Some(self.parse_type_reference())
        } else {
            None
        };
        match self.expect(39) {
            Ok(_) => {},
            Err(_) => {
                self.synchronize();
                return None;
            },
        }
        let value = self.parse_expression();
        Some((name, annotation, value))
    }

    /// `if (c) e elif (c2) e2 ... else e3`; the `else` branch may be left out.
    fn parse_if_expr(&mut self) -> (e: Expr)
        requires
            old(self).wf(),
        ensures
            steps(*old(self), *final(self)),
            old(self).current_tag() == 5 ==> final(self).pos() > old(self).pos(),
        decreases old(self).remaining(), 20nat,
    {
        let start_span = match self.expect(5) {
            Ok(t) => t.span,
            Err(_) => {
                return placeholder(self.peek_span());
            },
        };
        match self.expect(42) {
            Ok(_) => {},
            Err(_) => {
                self.synchronize();
                return placeholder(start_span);
            },
        }
        let condition = self.parse_expression();
        match self.expect(43) {
            Ok(_) => {},
            Err(_) => {
                self.synchronize();
            },
        }
        let then_expr = self.parse_expression();
        let (elif_parts, else_expr) = self.parse_elif_parts();
        let span = match &else_expr {
            Some(e) => start_span.merge(&e.span),
            None => if elif_parts.len() > 0 {
                start_span.merge(&elif_parts[elif_parts.len() - 1].1.span)
            } else {
                start_span.merge(&then_expr.span)
            },
        };
        Expr::if_expr(condition, then_expr, elif_parts, else_expr, span)
    }

    /// The `elif` branches and the `else` branch, if any, of an `if`.
    fn parse_elif_parts(&mut self) -> (r: (Vec<(Expr, Expr)>, Option<Expr>))
        requires
            old(self).wf(),
        ensures
            steps(*old(self), *final(self)),
            exists|bs: Seq<(Parser, Parser, Parser, Parser, Parser)>, end: Parser|
                #![trigger elif_chain(*old(self), bs, r.0@, end)]
                {
                    &&& elif_chain(*old(self), bs, r.0@, end)
                    &&& (end.current_tag() != 7 ==> r.1 is None && same_place(*final(self), end))
                    &&& (end.current_tag() == 7 ==> exists|x: Parser|
                        #![trigger consumed(end, x, 7)]
                        consumed(end, x, 7) && (r.1 matches Some(e) && expression_parsed(x, *final(self), e)))
                },
        decreases old(self).remaining(), 5nat,
    {
        let mut elif_parts: Vec<(Expr, Expr)> = Vec::new();
        let ghost mut bs: Seq<(Parser, Parser, Parser, Parser, Parser)> = Seq::empty();
        let ghost mut at = *self;
        while self.match_tag(6)
            invariant_except_break
                same_place(*self, at),
            invariant
                steps(*old(self), *self),
                bs.len() == elif_parts@.len(),
                forall|k: int|
                    0 <= k < elif_parts@.len() ==> #[trigger] elif_branch(bs[k], elif_parts@[k].0, elif_parts@[k].1),
                bs.len() > 0 ==> same_place(bs[0].0, *old(self)),
                forall|k: int| 1 <= k < bs.len() ==> same_place(#[trigger] bs[k].0, bs[k - 1].4),
                at == if bs.len() > 0 {
                    bs.last().4
                } else {
                    *old(self)
                },
            ensures
                steps(*old(self), *self),
                bs.len() == elif_parts@.len(),
                forall|k: int|
                    0 <= k < elif_parts@.len() ==> #[trigger] elif_branch(bs[k], elif_parts@[k].0, elif_parts@[k].1),
                bs.len() > 0 ==> same_place(bs[0].0, *old(self)),
                forall|k: int| 1 <= k < bs.len() ==> same_place(#[trigger] bs[k].0, bs[k - 1].4),
                at == if bs.len() > 0 {
                    bs.last().4
                } else {
                    *old(self)
                },
                steps(at, *self),
                at.current_tag() != 6 ==> same_place(*self, at),
                at.current_tag() == 6 ==> tag_at(at.toks(), at.next_pos()) != 42 && self.diags().len()
                    == at.diags().len() + 1,
            decreases self.remaining(),
        {
            let ghost s_elif = at;
            let ghost s_open = *self;
            match self.expect(42) {
                Ok(_) => {},
                Err(_) => {
                    self.synchronize();
                    break;
                },
            }
            let ghost s1 = *self;
            let condition = self.parse_expression();
            let ghost s2 = *self;
            match self.expect(43) {
                Ok(_) => {},
                Err(_) => {
                    self.synchronize();
                },
            }
            let ghost s3 = *self;
            let elif_expr = self.parse_expression();
            let ghost s4 = *self;
            elif_parts.push((condition, elif_expr));
            proof {
                bs = bs.push((s_elif, s1, s2, s3, s4));
                at = s4;
                assert(elif_branch(bs.last(), elif_parts@.last().0, elif_parts@.last().1));
            }
        }
        let ghost end = *self;
        proof {
            assert(elif_chain(*old(self), bs, elif_parts@, end));
        }
        if !self.match_tag(7) {
            proof {
                assert(end.current_tag() != 7);
                assert(same_place(*self, end));
                let r: (Vec<(Expr, Expr)>, Option<Expr>) = (elif_parts, None);
                assert(elif_chain(*old(self), bs, r.0@, end));
            }
            return (elif_parts, None);
        }
        let ghost x = *self;
        let else_expr = self.parse_expression();
        proof {
            assert(end.current_tag() == 7);
            assert(consumed(end, x, 7));
            assert(expression_parsed(x, *self, else_expr));
            let r: (Vec<(Expr, Expr)>, Option<Expr>) = (elif_parts, Some(else_expr));
            assert(elif_chain(*old(self), bs, r.0@, end));
        }
        (elif_parts, Some(else_expr))
    }

    /// `while (c) body`.
    fn parse_while_expr(&mut self) -> (e: Expr)
        requires
            old(self).wf(),
        ensures
            steps(*old(self), *final(self)),
            old(self).current_tag() == 8 ==> final(self).pos() > old(self).pos(),
            old(self).current_tag() == 8 && tag_at(old(self).toks(), old(self).next_pos()) == 42 ==> while_parsed(
                *old(self),
                *final(self),
                e,
            ),
        decreases old(self).remaining(), 20nat,
    {
        let ghost a = *self;
        let start_span = match self.expect(8) {
            Ok(t) => t.span,
            Err(_) => {
                return placeholder(self.peek_span());
            },
        };
        match self.expect(42) {
            Ok(_) => {},
            Err(_) => {
                self.synchronize();
                return placeholder(start_span);
            },
        }
        let ghost s0 = *self;
        let condition = self.parse_expression();
        let ghost s1 = *self;
        match self.expect(43) {
            Ok(_) => {},
            Err(_) => {
                self.synchronize();
            },
        }
        let ghost s2 = *self;
        let body = self.parse_expression();
        let span = start_span.merge(&body.span);
        let e = Expr::while_expr(condition, body, span);
        proof {
            assert(while_steps(a, *self, e, (s0, s1, s2)));
        }
        e
    }

    /// `for (x in iterable) body`, or `for x in iterable body`.
    fn parse_for_expr(&mut self) -> (e: Expr)
        requires
            old(self).wf(),
        ensures
            steps(*old(self), *final(self)),
            old(self).current_tag() == 9 ==> final(self).pos() > old(self).pos(),
        decreases old(self).remaining(), 20nat,
    {
        let start_span = match self.expect(9) {
            Ok(t) => t.span,
            Err(_) => {
                return placeholder(self.peek_span());
            },
        };
        let parenthesised = self.match_tag(42);
        if !self.check(4) {
            let found = self.peek_lexeme();
            self.error(ParserError::ExpectedIdentifier { found });
            self.synchronize();
            return placeholder(start_span);
        }
        let var_token = self.advance();
        let variable = identifier_text(var_token.token_type);
        match self.expect(10) {
            Ok(_) => {},
            Err(_) => {
                self.synchronize();
                return placeholder(start_span);
            },
        }
        let iterable = self.parse_expression();
        if parenthesised {
            match self.expect(43) {
                Ok(_) => {},
                Err(_) => {
                    self.synchronize();
                },
            }
        }
        let body = self.parse_expression();
        let span = start_span.merge(&body.span);
        Expr::for_expr(variable, iterable, body, span)
    }

    /// `target := value`, or an operator expression. A target that cannot be
    /// assigned to is reported, and the value stands for the whole.
    fn parse_assignment_expr(&mut self) -> (e: Expr)
        requires
            old(self).wf(),
        ensures
            steps(*old(self), *final(self)),
            advanced(*old(self), *final(self)),
            at_lone_atom(*old(self)) ==> took_atom(*old(self), *final(self), e),
            at_chain(*old(self)) ==> parsed_chain(*old(self), *final(self), e, 1nat),
        decreases old(self).remaining(), 39nat,
    {
        let target = self.parse_logical_or();
        proof {
            if at_chain(*old(self)) {
                lemma_chain_stop(self.toks(), old(self).pos(), 1nat);
            }
        }
        if self.match_tag(40) {
            let value = self.parse_expression();
            if !assignable(&target) {
                let name = assignment_target_name(&target);
                self.error(ParserError::InvalidAssignmentTarget { target: name });
                return value;
            }
            let span = target.span.merge(&value.span);
            return Expr::assignment(target, value, span);
        }
        target
    }

    /// `a | b | ...`, left-associative.
    fn parse_logical_or(&mut self) -> (e: Expr)
        requires
            old(self).wf(),
        ensures
            steps(*old(self), *final(self)),
            advanced(*old(self), *final(self)),
            at_lone_atom(*old(self)) ==> took_atom(*old(self), *final(self), e),
            at_chain(*old(self)) ==> parsed_chain(*old(self), *final(self), e, 1nat),
        decreases old(self).remaining(), 38nat,
    {
        let mut expr = self.parse_logical_and();
        let ghost e0 = expr;
        let ghost s1 = *self;
        proof {
            if at_chain(*old(self)) {
                lemma_progress_start(*old(self), *self, expr, 1nat);
            }
        }
        while self.check(36)
            invariant
                steps(*old(self), *self),
                advanced(*old(self), *self),
                at_lone_atom(*old(self)) ==> took_atom(*old(self), s1, e0),
                at_lone_atom(*old(self)) ==> (self.pos() == s1.pos() && self.diags() == s1.diags() && expr == e0),
                at_chain(*old(self)) ==> chain_progress(*old(self), *self, expr, 1nat),
            decreases self.remaining(),
        {
            let ghost b = *self;
            let ghost e_before = expr;
            proof {
                if at_chain(*old(self)) {
                    lemma_progress_next(*old(self), *self, expr, 1nat);
                }
            }
            let operator = self.advance();
            let ghost m = *self;
            let right = self.parse_logical_and();
            let ghost right_e = right;
            let span = expr.span.merge(&right.span);
            let op = BinaryOperator::from_token_type(&operator.token_type).unwrap();
            expr = Expr::binary(expr, op, right, span);
            proof {
                if at_chain(*old(self)) {
                    lemma_progress_step(*old(self), b, e_before, m, *self, right_e, expr, 1nat);
                }
            }
        }
        proof {
            if at_chain(*old(self)) {
                lemma_progress_end(*old(self), *self, expr, 1nat);
            }
        }
        expr
    }

    /// `a & b & ...`, left-associative.
    fn parse_logical_and(&mut self) -> (e: Expr)
        requires
            old(self).wf(),
        ensures
            steps(*old(self), *final(self)),
            advanced(*old(self), *final(self)),
            at_lone_atom(*old(self)) ==> took_atom(*old(self), *final(self), e),
            at_chain(*old(self)) ==> parsed_chain(*old(self), *final(self), e, 2nat),
        decreases old(self).remaining(), 37nat,
    {
        let mut expr = self.parse_equality();
        let ghost e0 = expr;
        let ghost s1 = *self;
        proof {
            if at_chain(*old(self)) {
                lemma_progress_start(*old(self), *self, expr, 2nat);
            }
        }
        while self.check(35)
            invariant
                steps(*old(self), *self),
                advanced(*old(self), *self),
                at_lone_atom(*old(self)) ==> took_atom(*old(self), s1, e0),
                at_lone_atom(*old(self)) ==> (self.pos() == s1.pos() && self.diags() == s1.diags() && expr == e0),
                at_chain(*old(self)) ==> chain_progress(*old(self), *self, expr, 2nat),
            decreases self.remaining(),
        {
            let ghost b = *self;
            let ghost e_before = expr;
            proof {
                if at_chain(*old(self)) {
                    lemma_progress_next(*old(self), *self, expr, 2nat);
                }
            }
            let operator = self.advance();
            let ghost m = *self;
            let right = self.parse_equality();
            let ghost right_e = right;
            let span = expr.span.merge(&right.span);
            let op = BinaryOperator::from_token_type(&operator.token_type).unwrap();
            expr = Expr::binary(expr, op, right, span);
            proof {
                if at_chain(*old(self)) {
                    lemma_progress_step(*old(self), b, e_before, m, *self, right_e, expr, 2nat);
                }
            }
        }
        proof {
            if at_chain(*old(self)) {
                lemma_progress_end(*old(self), *self, expr, 2nat);
            }
        }
        expr
    }

    /// `a == b`, `a != b`, left-associative.
    fn parse_equality(&mut self) -> (e: Expr)
        requires
            old(self).wf(),
        ensures
            steps(*old(self), *final(self)),
            advanced(*old(self), *final(self)),
            at_lone_atom(*old(self)) ==> took_atom(*old(self), *final(self), e),
            at_chain(*old(self)) ==> parsed_chain(*old(self), *final(self), e, 3nat),
        decreases old(self).remaining(), 36nat,
    {
        let mut expr = self.parse_comparison();
        let ghost e0 = expr;
        let ghost s1 = *self;
        proof {
            if at_chain(*old(self)) {
                lemma_progress_start(*old(self), *self, expr, 3nat);
            }
        }
        while self.check(29) || self.check(30)
            invariant
                steps(*old(self), *self),
                advanced(*old(self), *self),
                at_lone_atom(*old(self)) ==> took_atom(*old(self), s1, e0),
                at_lone_atom(*old(self)) ==> (self.pos() == s1.pos() && self.diags() == s1.diags() && expr == e0),
                at_chain(*old(self)) ==> chain_progress(*old(self), *self, expr, 3nat),
            decreases self.remaining(),
        {
            let ghost b = *self;
            let ghost e_before = expr;
            proof {
                if at_chain(*old(self)) {
                    lemma_progress_next(*old(self), *self, expr, 3nat);
                }
            }
            let operator = self.advance();
            let ghost m = *self;
            let right = self.parse_comparison();
            let ghost right_e = right;
            let span = expr.span.merge(&right.span);
            let op = BinaryOperator::from_token_type(&operator.token_type).unwrap();
            expr = Expr::binary(expr, op, right, span);
            proof {
                if at_chain(*old(self)) {
                    lemma_progress_step(*old(self), b, e_before, m, *self, right_e, expr, 3nat);
                }
            }
        }
        proof {
            if at_chain(*old(self)) {
                lemma_progress_end(*old(self), *self, expr, 3nat);
            }
        }
        expr
    }

    /// `<`, `<=`, `>`, `>=`, left-associative.
    fn parse_comparison(&mut self) -> (e: Expr)
        requires
            old(self).wf(),
        ensures
            steps(*old(self), *final(self)),
            advanced(*old(self), *final(self)),
            at_lone_atom(*old(self)) ==> took_atom(*old(self), *final(self), e),
            at_chain(*old(self)) ==> parsed_chain(*old(self), *final(self), e, 4nat),
        decreases old(self).remaining(), 35nat,
    {
        let mut expr = self.parse_type_operations();
        let ghost e0 = expr;
        let ghost s1 = *self;
        proof {
            if at_chain(*old(self)) {
                lemma_progress_start(*old(self), *self, expr, 4nat);
            }
        }
        while self.check(31) || self.check(33) || self.check(32) || self.check(34)
            invariant
                steps(*old(self), *self),
                advanced(*old(self), *self),
                at_lone_atom(*old(self)) ==> took_atom(*old(self), s1, e0),
                at_lone_atom(*old(self)) ==> (self.pos() == s1.pos() && self.diags() == s1.diags() && expr == e0),
                at_chain(*old(self)) ==> chain_progress(*old(self), *self, expr, 4nat),
            decreases self.remaining(),
        {
            let ghost b = *self;
            let ghost e_before = expr;
            proof {
                if at_chain(*old(self)) {
                    lemma_progress_next(*old(self), *self, expr, 4nat);
                }
            }
            let operator = self.advance();
            let ghost m = *self;
            let right = self.parse_type_operations();
            let ghost right_e = right;
            let span = expr.span.merge(&right.span);
            let op = BinaryOperator::from_token_type(&operator.token_type).unwrap();
            expr = Expr::binary(expr, op, right, span);
            proof {
                if at_chain(*old(self)) {
                    lemma_progress_step(*old(self), b, e_before, m, *self, right_e, expr, 4nat);
                }
            }
        }
        proof {
            if at_chain(*old(self)) {
                lemma_progress_end(*old(self), *self, expr, 4nat);
            }
        }
        expr
    }

    /// `e is T` and `e as T`, applied left to right.
    fn parse_type_operations(&mut self) -> (e: Expr)
        requires
            old(self).wf(),
        ensures
            steps(*old(self), *final(self)),
            advanced(*old(self), *final(self)),
            at_lone_atom(*old(self)) ==> took_atom(*old(self), *final(self), e),
            at_chain(*old(self)) ==> parsed_chain(*old(self), *final(self), e, 5nat),
        decreases old(self).remaining(), 34nat,
    {
        let mut expr = self.parse_concatenation();
        let ghost e0 = expr;
        let ghost s1 = *self;
        proof {
            if at_chain(*old(self)) {
                lemma_chain_stop(self.toks(), old(self).pos(), 5nat);
            }
        }
        loop
            invariant
                steps(*old(self), *self),
                advanced(*old(self), *self),
                at_lone_atom(*old(self)) ==> took_atom(*old(self), s1, e0),
                at_lone_atom(*old(self)) ==> (self.pos() == s1.pos() && self.diags() == s1.diags() && expr == e0),
                at_chain(*old(self)) ==> (self.pos() == s1.pos() && self.diags() == s1.diags() && expr == e0
                    && parsed_chain(*old(self), *self, expr, 5nat) && (strength(tag_at(self.toks(), self.pos())) > 0
                    || !continues(tag_at(self.toks(), self.pos())))),
            decreases self.remaining(),
        {
            if self.match_tag(19) {
                let type_reference = self.parse_type_reference();
                let span = expr.span.merge(&type_reference.span);
                expr = Expr::type_check(expr, type_reference, span);
            } else if self.match_tag(20) {
                let type_reference = self.parse_type_reference();
                let span = expr.span.merge(&type_reference.span);
                expr = Expr::type_cast(expr, type_reference, span);
            } else {
                break;
            }
        }
        expr
    }

    /// `a @ b`, `a @@ b`, left-associative.
    fn parse_concatenation(&mut self) -> (e: Expr)
        requires
            old(self).wf(),
        ensures
            steps(*old(self), *final(self)),
            advanced(*old(self), *final(self)),
            at_lone_atom(*old(self)) ==> took_atom(*old(self), *final(self), e),
            at_chain(*old(self)) ==> parsed_chain(*old(self), *final(self), e, 5nat),
        decreases old(self).remaining(), 33nat,
    {
        let mut expr = self.parse_term();
        let ghost e0 = expr;
        let ghost s1 = *self;
        proof {
            if at_chain(*old(self)) {
                lemma_progress_start(*old(self), *self, expr, 5nat);
            }
        }
        while self.check(27) || self.check(28)
            invariant
                steps(*old(self), *self),
                advanced(*old(self), *self),
                at_lone_atom(*old(self)) ==> took_atom(*old(self), s1, e0),
                at_lone_atom(*old(self)) ==> (self.pos() == s1.pos() && self.diags() == s1.diags() && expr == e0),
                at_chain(*old(self)) ==> chain_progress(*old(self), *self, expr, 5nat),
            decreases self.remaining(),
        {
            let ghost b = *self;
            let ghost e_before = expr;
            proof {
                if at_chain(*old(self)) {
                    lemma_progress_next(*old(self), *self, expr, 5nat);
                }
            }
            let operator = self.advance();
            let ghost m = *self;
            let right = self.parse_term();
            let ghost right_e = right;
            let span = expr.span.merge(&right.span);
            let op = BinaryOperator::from_token_type(&operator.token_type).unwrap();
            expr = Expr::binary(expr, op, right, span);
            proof {
                if at_chain(*old(self)) {
                    lemma_progress_step(*old(self), b, e_before, m, *self, right_e, expr, 5nat);
                }
            }
        }
        proof {
            if at_chain(*old(self)) {
                lemma_progress_end(*old(self), *self, expr, 5nat);
            }
        }
        expr
    }

    /// `a + b`, `a - b`, left-associative.
    fn parse_term(&mut self) -> (e: Expr)
        requires
            old(self).wf(),
        ensures
            steps(*old(self), *final(self)),
            advanced(*old(self), *final(self)),
            at_lone_atom(*old(self)) ==> took_atom(*old(self), *final(self), e),
            at_chain(*old(self)) ==> parsed_chain(*old(self), *final(self), e, 6nat),
        decreases old(self).remaining(), 32nat,
    {
        let mut expr = self.parse_factor();
        let ghost e0 = expr;
        let ghost s1 = *self;
        proof {
            if at_chain(*old(self)) {
                lemma_progress_start(*old(self), *self, expr, 6nat);
            }
        }
        while self.check(21) || self.check(22)
            invariant
                steps(*old(self), *self),
                advanced(*old(self), *self),
                at_lone_atom(*old(self)) ==> took_atom(*old(self), s1, e0),
                at_lone_atom(*old(self)) ==> (self.pos() == s1.pos() && self.diags() == s1.diags() && expr == e0),
                at_chain(*old(self)) ==> chain_progress(*old(self), *self, expr, 6nat),
            decreases self.remaining(),
        {
            let ghost b = *self;
            let ghost e_before = expr;
            proof {
                if at_chain(*old(self)) {
                    lemma_progress_next(*old(self), *self, expr, 6nat);
                }
            }
            let operator = self.advance();
            let ghost m = *self;
            let right = self.parse_factor();
            let ghost right_e = right;
            let span = expr.span.merge(&right.span);
            let op = BinaryOperator::from_token_type(&operator.token_type).unwrap();
            expr = Expr::binary(expr, op, right, span);
            proof {
                if at_chain(*old(self)) {
                    lemma_progress_step(*old(self), b, e_before, m, *self, right_e, expr, 6nat);
                }
            }
        }
        proof {
            if at_chain(*old(self)) {
                lemma_progress_end(*old(self), *self, expr, 6nat);
            }
        }
        expr
    }

    /// `a * b`, `a / b`, `a % b`, left-associative.
    fn parse_factor(&mut self) -> (e: Expr)
        requires
            old(self).wf(),
        ensures
            steps(*old(self), *final(self)),
            advanced(*old(self), *final(self)),
            at_lone_atom(*old(self)) ==> took_atom(*old(self), *final(self), e),
            at_chain(*old(self)) ==> parsed_chain(*old(self), *final(self), e, 7nat),
        decreases old(self).remaining(), 31nat,
    {
        let mut expr = self.parse_power();
        let ghost e0 = expr;
        let ghost s1 = *self;
        proof {
            if at_chain(*old(self)) {
                lemma_progress_start(*old(self), *self, expr, 7nat);
            }
        }
        while self.check(23) || self.check(24) || self.check(26)
            invariant
                steps(*old(self), *self),
                advanced(*old(self), *self),
                at_lone_atom(*old(self)) ==> took_atom(*old(self), s1, e0),
                at_lone_atom(*old(self)) ==> (self.pos() == s1.pos() && self.diags() == s1.diags() && expr == e0),
                at_chain(*old(self)) ==> chain_progress(*old(self), *self, expr, 7nat),
            decreases self.remaining(),
        {
            let ghost b = *self;
            let ghost e_before = expr;
            proof {
                if at_chain(*old(self)) {
                    lemma_progress_next(*old(self), *self, expr, 7nat);
                }
            }
            let operator = self.advance();
            let ghost m = *self;
            let right = self.parse_power();
            let ghost right_e = right;
            let span = expr.span.merge(&right.span);
            let op = BinaryOperator::from_token_type(&operator.token_type).unwrap();
            expr = Expr::binary(expr, op, right, span);
            proof {
                if at_chain(*old(self)) {
                    lemma_progress_step(*old(self), b, e_before, m, *self, right_e, expr, 7nat);
                }
            }
        }
        proof {
            if at_chain(*old(self)) {
                lemma_progress_end(*old(self), *self, expr, 7nat);
            }
        }
        expr
    }

    /// `a ^ b`, right-associative.
    fn parse_power(&mut self) -> (e: Expr)
        requires
            old(self).wf(),
        ensures
            steps(*old(self), *final(self)),
            advanced(*old(self), *final(self)),
            at_lone_atom(*old(self)) ==> took_atom(*old(self), *final(self), e),
            at_chain(*old(self)) ==> parsed_chain(*old(self), *final(self), e, 8nat),
        decreases old(self).remaining(), 30nat,
    {
        let expr = self.parse_unary();
        proof {
            if at_chain(*old(self)) {
                lemma_chain_follow(self.toks(), old(self).pos());
            }
        }
        if self.check(25) {
            proof {
                if at_chain(*old(self)) {
                    lemma_chain_next(self.toks(), old(self).pos());
                }
            }
            let operator = self.advance();
            let ghost m = *self;
            let right = self.parse_power();
            let ghost right_e = right;
            let ghost expr_e = expr;
            let span = expr.span.merge(&right.span);
            let op = BinaryOperator::from_token_type(&operator.token_type).unwrap();
            let r = Expr::binary(expr, op, right, span);
            proof {
                if at_chain(*old(self)) {
                    let toks = old(self).toks();
                    let p = old(self).pos();
                    let q = self.pos();
                    assert(m.pos() == p + 2);
                    lemma_chain_stop(toks, p + 2, 8nat);
                    assert(chain_stop(toks, p + 1, 8nat) == chain_stop(toks, p + 3, 8nat));
                    lemma_split(toks, p, p + 1, q, 8nat);
                    assert(chain_tree(expr_e, toks, p, p + 1));
                }
            }
            return r;
        }
        expr
    }

    /// `-e` and `!e`.
    fn parse_unary(&mut self) -> (e: Expr)
        requires
            old(self).wf(),
        ensures
            steps(*old(self), *final(self)),
            advanced(*old(self), *final(self)),
            at_lone_atom(*old(self)) ==> took_atom(*old(self), *final(self), e),
            at_chain(*old(self)) ==> parsed_chain(*old(self), *final(self), e, 9nat),
        decreases old(self).remaining(), 29nat,
    {
        if self.check(22) || self.check(38) {
            let operator = self.advance();
            let operand = self.parse_unary();
            let span = operator.span.merge(&operand.span);
            let op = UnaryOperator::from_token_type(&operator.token_type).unwrap();
            return Expr::unary(op, operand, span);
        }
        self.parse_call()
    }

    /// Calls `f(a, b)`, member accesses `o.m` and indexing `v[i]` after a primary expression.
    fn parse_call(&mut self) -> (e: Expr)
        requires
            old(self).wf(),
        ensures
            steps(*old(self), *final(self)),
            advanced(*old(self), *final(self)),
            at_lone_atom(*old(self)) ==> took_atom(*old(self), *final(self), e),
            at_chain(*old(self)) ==> parsed_chain(*old(self), *final(self), e, 9nat),
        decreases old(self).remaining(), 28nat,
    {
        let mut expr = self.parse_primary();
        let ghost e0 = expr;
        let ghost s1 = *self;
        proof {
            if at_chain(*old(self)) {
                lemma_chain_follow(self.toks(), old(self).pos());
            }
        }
        loop
            invariant
                steps(*old(self), *self),
                advanced(*old(self), *self),
                at_lone_atom(*old(self)) ==> took_atom(*old(self), s1, e0),
                at_lone_atom(*old(self)) ==> (self.pos() == s1.pos() && self.diags() == s1.diags() && expr == e0),
                at_chain(*old(self)) ==> (self.pos() == s1.pos() && self.diags() == s1.diags() && expr == e0 && (
                strength(tag_at(self.toks(), self.pos())) > 0 || !continues(tag_at(self.toks(), self.pos())))),
            decreases self.remaining(),
        {
            if self.check(42) {
                let ghost before = self.pos();
                let open_token = self.advance();
                let mut arguments: Vec<Expr> = Vec::new();
                if !self.check(43) {
                    loop
                        invariant
                            steps(*old(self), *self),
                            self.pos() > old(self).pos(),
                            self.pos() > before,
                        decreases self.remaining(),
                    {
                        arguments.push(self.parse_expression());
                        if self.check(49) {
                            self.advance();
                        } else {
                            break;
                        }
                    }
                }
                if self.check(43) {
                    let close = self.advance();
                    let span = expr.span.merge(&close.span);
                    expr = Expr::call(expr, arguments, span);
                } else {
                    self.error(
                        ParserError::UnclosedParenthesis {
                            start_line: open_token.span.start_line,
                            start_column: open_token.span.start_column,
                        },
                    );
                    let span = if arguments.len() > 0 {
                        expr.span.merge(&arguments[arguments.len() - 1].span)
                    } else {
                        expr.span.clone()
                    };
                    expr = Expr::call(expr, arguments, span);
                    break;
                }
            } else if self.match_tag(50) {
                if self.check(4) {
                    let member_token = self.advance();
                    let span = expr.span.merge(&member_token.span);
                    let member = identifier_text(member_token.token_type);
                    expr = Expr::member_access(expr, member, span);
                } else {
                    let found = self.peek_lexeme();
                    self.error(ParserError::ExpectedIdentifier { found });
                    break;
                }
            } else if self.check(46) {
                let open_token = self.advance();
                let index = self.parse_expression();
                if self.check(47) {
                    let close = self.advance();
                    let span = expr.span.merge(&close.span);
                    expr = Expr::index_access(expr, index, span);
                } else {
                    self.error(
                        ParserError::UnclosedBracket {
                            start_line: open_token.span.start_line,
                            start_column: open_token.span.start_column,
                        },
                    );
                    let span = expr.span.merge(&index.span);
                    expr = Expr::index_access(expr, index, span);
                    break;
                }
            } else {
                break;
            }
        }
        expr
    }

    /// The rest of a vector after `[`: `]`, `e1, e2, ... ]`, or the
    /// comprehension `e || x in iterable ]`. A comprehension without a name
    /// after `||`, or without `in` after the name, records an error and
    /// gives its first expression.
    fn parse_vector(&mut self, start_span: Span) -> (e: Expr)
        requires
            old(self).wf(),
        ensures
            steps(*old(self), *final(self)),
            old(self).current_tag() == 47 ==> {
                &&& e.kind matches ExprKind::VectorLiteral(v) && v@.len() == 0
                &&& e.span == start_span
                &&& consumed(*old(self), *final(self), 47)
            },
            old(self).current_tag() != 47 ==> {
                ||| (e.kind matches ExprKind::VectorLiteral(v) && exists|starts: Seq<Parser>, ends: Seq<Parser>|
                    #![trigger comma_separated(starts, ends, v@)]
                    {
                        &&& comma_separated(starts, ends, v@)
                        &&& v@.len() > 0
                        &&& same_place(starts[0], *old(self))
                        &&& ends[0].current_tag() != 37
                        &&& (ends.last().current_tag() == 47 ==> consumed(ends.last(), *final(self), 47))
                    })
                ||| (e.kind matches ExprKind::VectorComprehension { element_expr, binding, iterable } && exists|
                    st: (Parser, Parser, Parser, Parser, Parser),
                |
                    #![trigger comprehension_parsed(*old(self), st, *element_expr, binding@, *iterable)]
                    {
                        &&& comprehension_parsed(*old(self), st, *element_expr, binding@, *iterable)
                        &&& (st.4.current_tag() == 47 ==> consumed(st.4, *final(self), 47))
                    })
                ||| exists|s1: Parser|
                    #![trigger expression_parsed(*old(self), s1, e)]
                    {
                        &&& expression_parsed(*old(self), s1, e)
                        &&& s1.current_tag() == 37
                        &&& final(self).diags().len() > s1.diags().len()
                    }
            },
        decreases old(self).remaining(), 41nat,
    {
        let mut elements: Vec<Expr> = Vec::new();
        if self.match_tag(47) {
            return Expr::vector_literal(elements, start_span);
        }
        let ghost s0 = *self;
        let first_expr = self.parse_expression();
        let ghost s1 = *self;
        if self.match_tag(37) {
            let ghost s2 = *self;
            if !self.check(4) {
                let found = self.peek_lexeme();
                self.error(ParserError::ExpectedIdentifier { found });
                proof {
                    assert(expression_parsed(*old(self), s1, first_expr));
                }
                return first_expr;
            }
            let identifier = self.advance();
            let binding = identifier_text(identifier.token_type);
            let ghost s3 = *self;
            match self.expect(10) {
                Ok(_) => {},
                Err(_) => {
                    self.synchronize();
                    proof {
                        assert(expression_parsed(*old(self), s1, first_expr));
                    }
                    return first_expr;
                },
            }
            let ghost s4 = *self;
            let iterable = self.parse_expression();
            let ghost s5 = *self;
            let end_span = match self.expect(47) {
                Ok(t) => t.span,
                Err(_) => iterable.span.clone(),
            };
            let span = start_span.merge(&end_span);
            let ghost st = (s1, s2, s3, s4, s5);
            proof {
                assert(comprehension_parsed(*old(self), st, first_expr, binding@, iterable));
            }
            let r = Expr::vector_comprehension(first_expr, binding, iterable, span);
            proof {
                match &r.kind {
                    ExprKind::VectorComprehension { element_expr, binding, iterable } => {
                        assert(comprehension_parsed(*old(self), st, **element_expr, binding@, **iterable));
                        assert(st.4.current_tag() == 47 ==> consumed(st.4, *self, 47));
                    },
                    _ => {},
                }
            }
            return r;
        }
        elements.push(first_expr);
        let ghost mut starts: Seq<Parser> = seq![s0];
        let ghost mut ends: Seq<Parser> = seq![s1];
        while self.match_tag(49)
            invariant
                steps(*old(self), *self),
                elements.len() > 0,
                starts.len() == elements@.len(),
                ends.len() == elements@.len(),
                forall|k: int|
                    0 <= k < elements@.len() ==> #[trigger] expression_parsed(starts[k], ends[k], elements@[k]),
                forall|k: int| 1 <= k < elements@.len() ==> consumed(ends[k - 1], #[trigger] starts[k], 49),
                starts[0] == s0,
                ends[0] == s1,
                s1.current_tag() != 37,
                same_place(*self, ends.last()),
            decreases self.remaining(),
        {
            let ghost a = *self;
            let x = self.parse_expression();
            let ghost b = *self;
            elements.push(x);
            proof {
                starts = starts.push(a);
                ends = ends.push(b);
            }
        }
        proof {
            assert(comma_separated(starts, ends, elements@));
        }
        let end_span = match self.expect(47) {
            Ok(t) => t.span,
            Err(_) => elements[elements.len() - 1].span.clone(),
        };
        let span = start_span.merge(&end_span);
        let ghost v = elements@;
        let r = Expr::vector_literal(elements, span);
        proof {
            assert(ends.last().current_tag() == 47 ==> consumed(ends.last(), *self, 47));
            match &r.kind {
                ExprKind::VectorLiteral(w) => {
                    assert(w@ == v);
                    assert(comma_separated(starts, ends, w@));
                },
                _ => {},
            }
        }
        r
    }

    /// A parenthesised expression, a control expression, a literal, a name,
    /// `self`, `new T(args)` or a vector.
    fn parse_primary(&mut self) -> (e: Expr)
        requires
            old(self).wf(),
        ensures
            steps(*old(self), *final(self)),
            advanced(*old(self), *final(self)),
            is_atom_kind(old(self).current_tag()) ==> {
                &&& atom_matches(old(self).current(), e)
                &&& final(self).pos() == old(self).next_pos()
                &&& final(self).diags() == old(self).diags()
            },
        decreases old(self).remaining(), 27nat,
    {
        if self.check(42) {
            let open_token = self.advance();
            let expr = self.parse_expression();
            if self.check(43) {
                self.advance();
            } else {
                self.error(
                    ParserError::UnclosedParenthesis {
                        start_line: open_token.span.start_line,
                        start_column: open_token.span.start_column,
                    },
                );
            }
            return expr;
        }
        if self.check(11) {
            return self.parse_let_binding();
        } else if self.check(5) {
            return self.parse_if_expr();
        } else if self.check(8) {
            return self.parse_while_expr();
        } else if self.check(9) {
            return self.parse_for_expr();
        } else if self.check(44) {
            return self.parse_block();
        }
        let token = self.advance();
        let Token { lexeme, token_type, span } = token;
        match token_type {
            TokenType::Number(value) => Expr::literal(Literal::Number(value), span),
            TokenType::String(value) => Expr::literal(Literal::String(value), span),
            TokenType::True => Expr::literal(Literal::Boolean(true), span),
            TokenType::False => Expr::literal(Literal::Boolean(false), span),
            TokenType::Pi => Expr::literal(Literal::Pi, span),
            TokenType::E => Expr::literal(Literal::E, span),
            TokenType::Identifier(name) => Expr::identifier(name, span),
            TokenType::SelfKeyword => Expr::self_expr(span),
            TokenType::New => {
                let type_reference = self.parse_type_reference();
                let mut arguments: Vec<Expr> = Vec::new();
                let mut end_span = type_reference.span.clone();
                if self.check(42) {
                    let open_token = self.advance();
                    if !self.check(43) {
                        loop
                            invariant
                                steps(*old(self), *self),
                                self.pos() > old(self).pos(),
                            decreases self.remaining(),
                        {
                            arguments.push(self.parse_expression());
                            if !self.match_tag(49) {
                                break;
                            }
                        }
                    }
                    if self.check(43) {
                        end_span = self.advance().span;
                    } else {
                        self.error(
                            ParserError::UnclosedParenthesis {
                                start_line: open_token.span.start_line,
                                start_column: open_token.span.start_column,
                            },
                        );
                        end_span = if arguments.len() > 0 {
                            arguments[arguments.len() - 1].span.clone()
                        } else {
                            open_token.span
                        };
                    }
                } else {
                    let found = self.peek_lexeme();
                    self.error(ParserError::UnexpectedToken { expected: string_from("("), found });
                }
                let full_span = span.merge(&end_span);
                Expr::new_expr(type_reference, arguments, full_span)
            },
            TokenType::RightParen => {
                self.error(ParserError::UnmatchedClosingDelimiter { delimiter: ')' });
                placeholder(span)
            },
            TokenType::RightBracket => {
                self.error(ParserError::UnmatchedClosingDelimiter { delimiter: ']' });
                placeholder(span)
            },
            TokenType::RightBrace => {
                self.error(ParserError::UnmatchedClosingDelimiter { delimiter: '}' });
                placeholder(span)
            },
            TokenType::LeftBracket => {
                let bracket = self.advance();
                self.parse_vector(bracket.span)
            },
            _ => {
                self.error(ParserError::ExpectedExpression { found: lexeme });
                placeholder(span)
            },
        }
    }

    /// A type: a name followed by any number of `*` (iterable of) and `[]`
    /// (vector of). A missing name is reported and read as `ErrorType`.
    pub fn parse_type_reference(&mut self) -> (t: TypeReference)
        requires
            old(self).wf(),
        ensures
            steps(*old(self), *final(self)),
            ({
                let p = old(self).pos();
                let ts = old(self).toks();
                let q = old(self).next_pos();
                (old(self).current_tag() == 4 && ts[q].1.0 != 23 && ts[q].1.0 != 46) ==> {
                    &&& t.kind matches TypeReferenceKind::Named(n) && n@ == ts[p].1.1
                    &&& t.span@ == ts[p].2
                    &&& final(self).pos() == q
                    &&& final(self).diags() == old(self).diags()
                }
            }),
    {
        let mut type_reference = if self.check(4) {
            let type_token = self.advance();
            let span = type_token.span;
            let name = identifier_text(type_token.token_type);
            TypeReference::new(name, span)
        } else {
            let found = self.peek_lexeme();
            let span = self.peek_span();
            self.error(ParserError::ExpectedType { found });
            TypeReference::new(string_from("ErrorType"), span)
        };
        let ghost base = type_reference;
        let ghost p0 = self.pos();
        let ghost after_base = *self;
        loop
            invariant
                steps(*old(self), *self),
                steps(after_base, *self),
                p0 == after_base.pos(),
                self.pos() == p0 ==> type_reference == base && *self == after_base,
                self.pos() == p0 || self.toks()[p0].1.0 == 23 || self.toks()[p0].1.0 == 46,
            decreases self.remaining(),
        {
            if self.check(23) {
                let star_token = self.advance();
                let span = type_reference.span.merge(&star_token.span);
                type_reference = TypeReference::iterable_of(type_reference, span);
            } else if self.check(46) {
                let left_bracket = self.advance();
                let right_bracket = match self.expect(47) {
                    Ok(token) => token,
                    Err(_) => {
                        self.synchronize();
                        break;
                    },
                };
                let span = type_reference.span.merge(&left_bracket.span).merge(&right_bracket.span);
                type_reference = TypeReference::vector_of(type_reference, span);
            } else {
                break;
            }
        }
        type_reference
    }
}


impl Parser {
    /// A whole program: declarations (functions, types, protocols), then at
    /// most one expression, with `;` allowed between them.
    pub fn parse_program(&mut self) -> (p: Program)
        requires
            old(self).wf(),
        ensures
            program_run(*old(self), *final(self), p),
    {
        let mut declarations: Vec<Declaration> = Vec::new();
        let mut entry_expression: Option<Expr> = None;
        let mut program_span = self.peek_span();
        let ghost mut starts: Seq<Parser> = Seq::empty();
        let ghost mut x = *self;
        let ghost mut y = *self;
        while self.match_tag(48)
            invariant
                steps(*old(self), *self),
            decreases self.remaining(),
        {
        }
        while !self.check(54)
            invariant_except_break
                entry_expression is None,
                starts.len() > 0 ==> starts.last().pos() < self.pos(),
                self.current_tag() != 48,
            invariant
                steps(*old(self), *self),
                declarations_from(*old(self), starts, declarations@),
            ensures
                declarations_from(*old(self), starts, declarations@),
                entry_expression matches Some(e) ==> entry_at(*old(self), starts, x) && expression_parsed(x, y, e),
                entry_expression is None ==> self.current_tag() == 54,
            decreases self.remaining(),
        {
            let ghost it = self.pos();
            let ghost here = *self;
            if self.check(12) || self.check(13) || self.check(17) {
                match self.parse_declaration() {
                    Some(declaration) => {
                        program_span = if declarations.len() == 0 {
                            declaration.span.clone()
                        } else {
                            program_span.merge(&declaration.span)
                        };
                        declarations.push(declaration);
                        proof {
                            starts = starts.push(here);
                            assert(declaration_at(starts.last(), declarations@.last()));
                        }
                    },
                    None => {
                        self.synchronize();
                    },
                }
                while self.match_tag(48)
                    invariant
                        steps(*old(self), *self),
                        self.pos() > it,
                    decreases self.remaining(),
                {
                }
                continue;
            }
            proof {
                x = *self;
                assert(entry_at(*old(self), starts, x));
            }
            let expr = self.parse_expression();
            proof {
                y = *self;
                assert(expression_parsed(x, y, expr));
            }
            program_span = if declarations.len() == 0 {
                expr.span.clone()
            } else {
                program_span.merge(&expr.span)
            };
            entry_expression = Some(expr);
            if !self.check(54) {
                match self.expect(48) {
                    Ok(_) => {},
                    Err(_) => {
                        self.synchronize();
                    },
                }
            }
            while self.match_tag(48)
                invariant
                    steps(*old(self), *self),
                decreases self.remaining(),
            {
            }
            break;
        }
        if declarations.len() == 0 && entry_expression.is_none() {
            program_span = self.peek_span();
        }
        let p = Program::new(declarations, entry_expression, program_span);
        proof {
            assert(program_parsed(*old(self), starts, x, y, p));
        }
        p
    }

    /// Parses a program and hands out the errors found, which the parser forgets.
    pub fn parse_program_with_errors(&mut self) -> (r: (Program, Vec<ParserDiagnostic>))
        requires
            old(self).wf(),
        ensures
            final(self).toks() == old(self).toks(),
            final(self).diags() == Seq::<ParserDiagnostic>::empty(),
            old(self).diags().len() <= r.1@.len(),
            forall|i: int| 0 <= i < old(self).diags().len() ==> #[trigger] r.1@[i] == old(self).diags()[i],
            exists|b: Parser| #![trigger program_run(*old(self), b, r.0)] program_run(*old(self), b, r.0) && r.1@ == b.diags(),
    {
        let program = self.parse_program();
        let ghost b = *self;
        let errors = self.take_errors();
        let r = (program, errors);
        assert(program_run(*old(self), b, r.0) && r.1@ == b.diags());
        r
    }

    /// Parses an expression and hands out the errors found, which the parser forgets.
    pub fn parse_expression_with_errors(&mut self) -> (r: (Expr, Vec<ParserDiagnostic>))
        requires
            old(self).wf(),
        ensures
            final(self).toks() == old(self).toks(),
            final(self).diags() == Seq::<ParserDiagnostic>::empty(),
            old(self).diags().len() <= r.1@.len(),
            forall|i: int| 0 <= i < old(self).diags().len() ==> #[trigger] r.1@[i] == old(self).diags()[i],
    {
        let expression = self.parse_expression();
        let errors = self.take_errors();
        (expression, errors)
    }

    /// A declaration starting at the current token (`function`, `type` or
    /// `protocol`); `None`, with nothing consumed, at any other token.
    pub fn parse_declaration(&mut self) -> (d: Option<Declaration>)
        requires
            old(self).wf(),
        ensures
            steps(*old(self), *final(self)),
            (old(self).current_tag() == 12 || old(self).current_tag() == 13 || old(self).current_tag() == 17)
                ==> final(self).pos() > old(self).pos(),
            !(old(self).current_tag() == 12 || old(self).current_tag() == 13 || old(self).current_tag() == 17)
                ==> d is None && *final(self) == *old(self),
            d matches Some(decl) ==> declaration_at(*old(self), decl),
    {
        if self.check(12) {
            self.parse_function_declaration()
        } else if self.check(13) {
            self.parse_type_declaration()
        } else if self.check(17) {
            self.parse_protocol_declaration()
        } else {
            None
        }
    }

    /// `function name(params): T => body` or `function name(params): T { ... }`.
    fn parse_function_declaration(&mut self) -> (d: Option<Declaration>)
        requires
            old(self).wf(),
        ensures
            steps(*old(self), *final(self)),
            old(self).current_tag() == 12 ==> final(self).pos() > old(self).pos(),
            d matches Some(decl) ==> decl.kind is Function,
            d matches Some(decl) ==> declaration_at(*old(self), decl),
    {
        let start_span = match self.expect(12) {
            Ok(t) => t.span,
            Err(_) => {
                return None;
            },
        };
        if !self.check(4) {
            self.error(ParserError::ExpectedFunctionName);
            self.synchronize();
            return None;
        }
        let name_token = self.advance();
        let name = identifier_text(name_token.token_type);
        match self.expect(42) {
            Ok(_) => {},
            Err(_) => {
                self.synchronize();
                return None;
            },
        }
        let parameters = self.parse_parameter_list();
        let return_type = if self.match_tag(51) {
            Some(self.parse_type_reference())
        } else {
            None
        };
        let body = if self.match_tag(41) {
            self.parse_expression()
        } else if self.check(44) {
            self.parse_block()
        } else {
            self.error(ParserError::ExpectedFunctionBody);
            self.synchronize();
            return None;
        };
        let span = start_span.merge(&body.span);
        Some(
            Declaration::new(
                DeclarationKind::Function(FunctionDeclaration { name, parameters, return_type, body }),
                span,
            ),
        )
    }

    /// `type Name(params) inherits Parent(args) { members }`.
    fn parse_type_declaration(&mut self) -> (d: Option<Declaration>)
        requires
            old(self).wf(),
        ensures
            steps(*old(self), *final(self)),
            old(self).current_tag() == 13 ==> final(self).pos() > old(self).pos(),
            d matches Some(decl) ==> decl.kind is Type,
            d matches Some(decl) ==> declaration_at(*old(self), decl),
    {
        let start_span = match self.expect(13) {
            Ok(t) => t.span,
            Err(_) => {
                return None;
            },
        };
        if !self.check(4) {
            self.error(ParserError::ExpectedTypeName);
            self.synchronize();
            return None;
        }
        let name_token = self.advance();
        let name = identifier_text(name_token.token_type);
        match self.expect(42) {
            Ok(_) => {},
            Err(_) => {
                self.synchronize();
                return None;
            },
        }
        let parameters = self.parse_parameter_list();
        let inherits = if self.match_tag(15) {
            Some(self.parse_type_reference())
        } else {
            None
        };
        let parent_arguments = if inherits.is_some() && self.check(42) {
            self.parse_argument_list()
        } else {
            Vec::new()
        };
        let members = if self.check(44) {
            self.parse_type_members()
        } else {
            self.error(ParserError::ExpectedTypeBody);
            self.synchronize();
            return None;
        };
        let end_span = if members.len() > 0 {
            match &members[members.len() - 1] {
                TypeMember::Attribute(attribute) => attribute.span.clone(),
                TypeMember::Method(function) => function.body.span.clone(),
            }
        } else {
            self.peek_span()
        };
        let span = start_span.merge(&end_span);
        Some(
            Declaration::new(
                DeclarationKind::Type(TypeDeclaration { name, parameters, inherits, parent_arguments, members }),
                span,
            ),
        )
    }

    /// The members between the braces of a type: attributes and methods, in
    /// order; what is neither is refused with an error and skipped. Without
    /// `{` nothing is consumed and an error is recorded.
    fn parse_type_members(&mut self) -> (members: Vec<TypeMember>)
        requires
            old(self).wf(),
        ensures
            steps(*old(self), *final(self)),
            old(self).current_tag() != 44 ==> {
                &&& members@.len() == 0
                &&& final(self).pos() == old(self).pos()
                &&& final(self).diags().len() == old(self).diags().len() + 1
            },
            old(self).current_tag() == 44 ==> exists|starts: Seq<Parser>|
                #![trigger members_from(*old(self), starts, members@)]
                members_from(*old(self), starts, members@) && (members@.len() > 0 ==> starts.last().pos()
                    < final(self).pos()),
    {
        let mut members: Vec<TypeMember> = Vec::new();
        match self.expect(44) {
            Ok(_) => {},
            Err(_) => {
                return members;
            },
        }
        let ghost mut starts: Seq<Parser> = Seq::empty();
        while !self.check(45) && !self.check(54)
            invariant
                steps(*old(self), *self),
                old(self).pos() < self.pos(),
                members_from(*old(self), starts, members@),
                members@.len() > 0 ==> starts.last().pos() < self.pos(),
            decreases self.remaining(),
        {
            if self.match_tag(48) {
                continue;
            }
            let ghost here = *self;
            if self.check(12) {
                match self.parse_function_declaration() {
                    Some(declaration) => {
                        match declaration.kind {
                            DeclarationKind::Function(function) => {
                                members.push(TypeMember::Method(function));
                                proof {
                                    starts = starts.push(here);
                                    assert(member_at(starts.last(), members@.last()));
                                }
                            },
                            _ => {},
                        }
                    },
                    None => {},
                }
            } else if self.check(4) {
                match self.parse_type_attribute() {
                    Some(attribute) => {
                        members.push(TypeMember::Attribute(attribute));
                        proof {
                            starts = starts.push(here);
                            assert(member_at(starts.last(), members@.last()));
                        }
                    },
                    None => {},
                }
            } else {
                self.error(
                    ParserError::InvalidDeclaration {
                        declaration_type: string_from("type member"),
                        context: string_from("type body"),
                    },
                );
                self.synchronize();
            }
            self.match_tag(48);
        }
        proof {
            assert(members_from(*old(self), starts, members@));
        }
        match self.expect(45) {
            Ok(_) => {},
            Err(_) => {
                self.synchronize();
            },
        }
        members
    }

    /// `name: T = initializer` inside a type.
    fn parse_type_attribute(&mut self) -> (a: Option<AttributeDeclaration>)
        requires
            old(self).wf(),
        ensures
            steps(*old(self), *final(self)),
            old(self).current_tag() == 4 ==> final(self).pos() > old(self).pos(),
            a matches Some(x) ==> old(self).current_tag() == 4 && x.name@ == old(self).current().1.1,
    {
        if !self.check(4) {
            return None;
        }
        let name_token = self.advance();
        let name_span = name_token.span;
        let name = identifier_text(name_token.token_type);
        let annotation = if self.match_tag(51) {
            Some(self.parse_type_reference())
        } else {
            None
        };
        match self.expect(39) {
            Ok(_) => {},
            Err(_) => {
                self.synchronize();
                return None;
            },
        }
        let initializer = self.parse_expression();
        let span = name_span.merge(&initializer.span);
        Some(AttributeDeclaration { name, annotation, initializer, span })
    }

    /// `(a, b, ...)`: the expressions between the parentheses, separated by
    /// `,`. Without `(` nothing is consumed and an error is recorded.
    fn parse_argument_list(&mut self) -> (arguments: Vec<Expr>)
        requires
            old(self).wf(),
        ensures
            steps(*old(self), *final(self)),
            old(self).current_tag() != 42 ==> {
                &&& arguments@.len() == 0
                &&& final(self).pos() == old(self).pos()
                &&& final(self).diags().len() == old(self).diags().len() + 1
            },
            old(self).current_tag() == 42 && tag_at(old(self).toks(), old(self).next_pos()) == 43 ==> {
                &&& arguments@.len() == 0
                &&& final(self).pos() == next_of(old(self).toks(), old(self).next_pos())
                &&& final(self).diags() == old(self).diags()
            },
            old(self).current_tag() == 42 && tag_at(old(self).toks(), old(self).next_pos()) != 43 ==> exists|
                starts: Seq<Parser>,
                ends: Seq<Parser>,
            |
                #![trigger comma_separated(starts, ends, arguments@)]
                {
                    &&& comma_separated(starts, ends, arguments@)
                    &&& arguments@.len() > 0
                    &&& starts[0].toks() == old(self).toks()
                    &&& starts[0].pos() == old(self).next_pos()
                    &&& starts[0].diags() == old(self).diags()
                    &&& ends.last().current_tag() == 43 ==> consumed(ends.last(), *final(self), 43)
                },
    {
        let mut arguments: Vec<Expr> = Vec::new();
        match self.expect(42) {
            Ok(_) => {},
            Err(_) => {
                return arguments;
            },
        }
        if self.match_tag(43) {
            return arguments;
        }
        let ghost first = *self;
        let ghost mut starts: Seq<Parser> = Seq::empty();
        let ghost mut ends: Seq<Parser> = Seq::empty();
        let mut more = true;
        while more
            invariant
                steps(*old(self), *self),
                starts.len() == arguments@.len(),
                ends.len() == arguments@.len(),
                forall|k: int|
                    0 <= k < arguments@.len() ==> #[trigger] expression_parsed(starts[k], ends[k], arguments@[k]),
                forall|k: int| 1 <= k < arguments@.len() ==> consumed(ends[k - 1], #[trigger] starts[k], 49),
                arguments@.len() == 0 ==> more && *self == first,
                arguments@.len() > 0 ==> starts[0] == first,
                more && arguments@.len() > 0 ==> consumed(ends.last(), *self, 49),
                !more ==> arguments@.len() > 0 && ends.last().current_tag() != 49 && self.pos() == ends.last().pos()
                    && self.toks() == ends.last().toks() && self.diags() == ends.last().diags(),
            decreases self.remaining() + if more {
                1nat
            } else {
                0nat
            },
        {
            let ghost s0 = *self;
            let e = self.parse_expression();
            let ghost s1 = *self;
            arguments.push(e);
            proof {
                starts = starts.push(s0);
                ends = ends.push(s1);
            }
            more = self.match_tag(49);
        }
        proof {
            assert(comma_separated(starts, ends, arguments@));
        }
        match self.expect(43) {
            Ok(_) => {},
            Err(_) => {
                self.synchronize();
            },
        }
        arguments
    }

    /// `protocol Name extends A, B { method signatures }`.
    fn parse_protocol_declaration(&mut self) -> (d: Option<Declaration>)
        requires
            old(self).wf(),
        ensures
            steps(*old(self), *final(self)),
            old(self).current_tag() == 17 ==> final(self).pos() > old(self).pos(),
            d matches Some(decl) ==> decl.kind is Protocol,
            d matches Some(decl) ==> declaration_at(*old(self), decl),
    {
        let start_span = match self.expect(17) {
            Ok(t) => t.span,
            Err(_) => {
                return None;
            },
        };
        if !self.check(4) {
            self.error(ParserError::ExpectedTypeName);
            self.synchronize();
            return None;
        }
        let name_token = self.advance();
        let name = identifier_text(name_token.token_type);
        let mut extends: Vec<TypeReference> = Vec::new();
        if self.match_tag(18) {
            loop
                invariant
                    steps(*old(self), *self),
                    self.pos() > old(self).pos(),
                decreases self.remaining(),
            {
                extends.push(self.parse_type_reference());
                if !self.match_tag(49) {
                    break;
                }
            }
        }
        let mut members: Vec<ProtocolMethodSignature> = Vec::new();
        match self.expect(44) {
            Ok(_) => {},
            Err(_) => {
                self.synchronize();
                return None;
            },
        }
        while !self.check(45) && !self.check(54)
            invariant
                steps(*old(self), *self),
                self.pos() > old(self).pos(),
            decreases self.remaining(),
        {
            match self.parse_protocol_method_signature() {
                Some(sig) => {
                    members.push(sig);
                },
                None => {
                    self.advance();
                },
            }
            self.match_tag(48);
        }
        let end_span = match self.expect(45) {
            Ok(t) => t.span,
            Err(_) => {
                self.synchronize();
                self.peek_span()
            },
        };
        let span = start_span.merge(&end_span);
        Some(Declaration::new(DeclarationKind::Protocol(ProtocolDeclaration { name, extends, members }), span))
    }

    /// `name(params): T` inside a protocol. A missing return type is reported
    /// and read as `Void`.
    fn parse_protocol_method_signature(&mut self) -> (m: Option<ProtocolMethodSignature>)
        requires
            old(self).wf(),
        ensures
            steps(*old(self), *final(self)),
            old(self).current_tag() == 4 ==> final(self).pos() > old(self).pos(),
            old(self).current_tag() != 4 ==> m is None && *final(self) == *old(self),
    {
        if !self.check(4) {
            return None;
        }
        let name_token = self.advance();
        let name_span = name_token.span;
        let name = identifier_text(name_token.token_type);
        match self.expect(42) {
            Ok(_) => {},
            Err(_) => {
                self.synchronize();
                return None;
            },
        }
        let parameters = self.parse_parameter_list();
        let return_type = if self.match_tag(51) {
            self.parse_type_reference()
        } else {
            self.error(ParserError::ExpectedType { found: string_from("<missing>") });
            TypeReference::new(string_from("Void"), self.peek_span())
        };
        let span = name_span.merge(&return_type.span);
        Some(ProtocolMethodSignature { name, parameters, return_type, span })
    }

    /// The parameters after `(`, up to and including `)`: `a`, `b: T`, ...
    /// A parameter that is not a name is reported and skipped.
    fn parse_parameter_list(&mut self) -> (parameters: Vec<Parameter>)
        requires
            old(self).wf(),
        ensures
            steps(*old(self), *final(self)),
            old(self).current_tag() == 43 ==> parameters@.len() == 0 && final(self).pos() == old(self).next_pos()
                && final(self).diags() == old(self).diags(),
    {
        let mut parameters: Vec<Parameter> = Vec::new();
        if self.match_tag(43) {
            return parameters;
        }
        loop
            invariant
                steps(*old(self), *self),
            decreases self.remaining(),
        {
            let ghost it = self.pos();
            if !self.check(4) {
                self.error(
                    ParserError::InvalidParameter {
                        reason: string_from("se esperaba un identificador de parámetro"),
                    },
                );
                while !self.check(54) && !self.check(49) && !self.check(43)
                    invariant
                        steps(*old(self), *self),
                        self.pos() >= it,
                    decreases self.remaining(),
                {
                    self.advance();
                }
                if self.match_tag(49) {
                    continue;
                }
                break;
            }
            let parameter_token = self.advance();
            let parameter_span = parameter_token.span;
            let parameter_name = identifier_text(parameter_token.token_type);
            let annotation = if self.match_tag(51) {
                Some(self.parse_type_reference())
            } else {
                None
            };
            let span = match &annotation {
                Some(type_ref) => parameter_span.merge(&type_ref.span),
                None => parameter_span,
            };
            parameters.push(Parameter::new(parameter_name, annotation, span));
            if !self.match_tag(49) {
                break;
            }
        }
        match self.expect(43) {
            Ok(_) => {},
            Err(_) => {
                self.synchronize();
            },
        }
        parameters
    }
}

/// Whether `e` can be assigned to.
fn assignable(e: &Expr) -> (r: bool)
    ensures
        r == is_assignable(*e),
{
    match &e.kind {
        ExprKind::Identifier(_) | ExprKind::MemberAccess { .. } | ExprKind::IndexAccess { .. } => true,
        _ => false,
    }
}

/// The name under which the assignment target `e` is reported.
fn assignment_target_name(e: &Expr) -> (r: String)
    ensures
        r@ == target_name(*e),
{
    proof {
        reveal_strlit(".");
        reveal_strlit("index access");
        reveal_strlit("expression");
    }
    match &e.kind {
        ExprKind::Identifier(name) => name.clone(),
        ExprKind::MemberAccess { member, .. } => {
            let mut r = string_from(".");
            crate::text::push_str(&mut r, member.as_str());
            r
        },
        ExprKind::IndexAccess { .. } => string_from("index access"),
        _ => string_from("expression"),
    }
}

/// The name under which an assignment target is reported.
pub open spec fn target_name(e: Expr) -> Seq<char> {
    match e.kind {
        ExprKind::Identifier(name) => name@,
        ExprKind::MemberAccess { member, .. } => "."@ + member@,
        ExprKind::IndexAccess { .. } => "index access"@,
        _ => "expression"@,
    }
}

/// Whether `e` can be assigned to: a variable, a member or an indexed element.
pub open spec fn is_assignable(e: Expr) -> bool {
    e.kind is Identifier || e.kind is MemberAccess || e.kind is IndexAccess
}

/// `e` is the literal `0` that stands in for an expression that could not be parsed.
pub open spec fn is_placeholder(e: Expr) -> bool {
    e.kind matches ExprKind::Literal(Literal::Number(s)) && s@ == "0"@
}

/// The expression that a single literal, name or `self` token stands for,
/// with the token's span; `None` for other tokens.
pub open spec fn atom_matches(t: TokenView, e: Expr) -> bool {
    let (lexeme, kind, span) = t;
    &&& e.span@ == span
    &&& if kind.0 == 0 {
        e.kind matches ExprKind::Literal(Literal::Number(s)) && s@ == kind.1
    } else if kind.0 == 1 {
        e.kind matches ExprKind::Literal(Literal::String(s)) && s@ == kind.1
    } else if kind.0 == 2 {
        e.kind == ExprKind::Literal(Literal::Boolean(true))
    } else if kind.0 == 3 {
        e.kind == ExprKind::Literal(Literal::Boolean(false))
    } else if kind.0 == 52 {
        e.kind == ExprKind::Literal(Literal::Pi)
    } else if kind.0 == 53 {
        e.kind == ExprKind::Literal(Literal::E)
    } else if kind.0 == 4 {
        e.kind matches ExprKind::Identifier(n) && n@ == kind.1
    } else {
        e.kind == ExprKind::Self_
    }
}

/// The token kinds that stand alone as an expression.
pub open spec fn is_atom_kind(t: nat) -> bool {
    t <= 4 || t == 52 || t == 53 || t == 16
}

/// The token kinds that, after an operand, make an expression go on: the
/// binary operators, `is`, `as`, `:=`, and `(`, `.`, `[` after a callee.
pub open spec fn continues(t: nat) -> bool {
    (19 <= t <= 36) || t == 40 || t == 42 || t == 46 || t == 50
}

/// `a` stands on a literal, a name or `self` that no token after it continues.
pub open spec fn at_lone_atom(a: Parser) -> bool {
    is_atom_kind(a.current_tag()) && !continues(a.toks()[a.next_pos()].1.0)
}

/// `e` is the atom `a` stood on, and `b` is just past it, with no new error.
pub open spec fn took_atom(a: Parser, b: Parser, e: Expr) -> bool {
    &&& atom_matches(a.current(), e)
    &&& b.pos() == a.next_pos()
    &&& b.diags() == a.diags()
}

/// The literal `0` at `span`.
fn placeholder(span: Span) -> (e: Expr)
    ensures
        is_placeholder(e),
        e.span == span,
{
    proof {
        reveal_strlit("0");
    }
    Expr::literal(Literal::Number(string_from("0")), span)
}

/// The name an identifier token carries.
fn identifier_text(t: TokenType) -> (s: String)
    requires
        t@.0 == 4,
    ensures
        s@ == t@.1,
{
    match t {
        TokenType::Identifier(n) => n,
        _ => String::new(),
    }
}

/// The text of `expected_text` as a literal.
fn expected_str(tag: u8) -> (s: &'static str)
    requires
        expectable(tag as nat),
    ensures
        s@ == expected_text(tag as nat),
{
    let s = if tag == 44 {
        "{"
    } else if tag == 45 {
        "}"
    } else if tag == 42 {
        "("
    } else if tag == 43 {
        ")"
    } else if tag == 46 {
        "["
    } else if tag == 47 {
        "]"
    } else if tag == 48 {
        ";"
    } else if tag == 49 {
        ","
    } else if tag == 51 {
        ":"
    } else if tag == 39 {
        "="
    } else if tag == 40 {
        ":="
    } else if tag == 41 {
        "=>"
    } else if tag == 11 {
        "let"
    } else if tag == 5 {
        "if"
    } else if tag == 6 {
        "elif"
    } else if tag == 7 {
        "else"
    } else if tag == 8 {
        "while"
    } else if tag == 9 {
        "for"
    } else if tag == 10 {
        "in"
    } else if tag == 12 {
        "Function"
    } else if tag == 13 {
        "Type"
    } else {
        "Protocol"
    };
    proof {
        reveal_strlit("{");
        reveal_strlit("}");
        reveal_strlit("(");
        reveal_strlit(")");
        reveal_strlit("[");
        reveal_strlit("]");
        reveal_strlit(";");
        reveal_strlit(",");
        reveal_strlit(":");
        reveal_strlit("=");
        reveal_strlit(":=");
        reveal_strlit("=>");
        reveal_strlit("let");
        reveal_strlit("if");
        reveal_strlit("elif");
        reveal_strlit("else");
        reveal_strlit("while");
        reveal_strlit("for");
        reveal_strlit("in");
        reveal_strlit("Function");
        reveal_strlit("Type");
        reveal_strlit("Protocol");
    }
    s
}

} // verus!
