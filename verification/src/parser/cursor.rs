use vstd::prelude::*;

use crate::lexer::token::{tag_eof, TokenView};
use crate::lexer::{Token, TokenType};

verus! {

/// A position in a list of tokens. The last token is never passed: advancing
/// there stays there.
#[derive(Debug, Clone)]
pub struct TokenCursor {
    tokens: Vec<Token>,
    position: usize,
}

impl TokenCursor {
    /// The tokens, as plain values.
    pub closed spec fn toks(&self) -> Seq<TokenView> {
        self.tokens@.map_values(|t: Token| t@)
    }

    /// The index of the current token.
    pub closed spec fn pos(&self) -> int {
        self.position as int
    }

    /// There is a token, and the position is on one.
    pub open spec fn wf(&self) -> bool {
        self.toks().len() > 0 && 0 <= self.pos() < self.toks().len()
    }

    /// The current token.
    pub open spec fn current(&self) -> TokenView {
        self.toks()[self.pos()]
    }

    /// The kind of the current token.
    pub open spec fn current_tag(&self) -> nat {
        self.current().1.0
    }

    /// The position after advancing: the next one, but never past the last token.
    pub open spec fn next_pos(&self) -> int {
        if self.pos() < self.toks().len() - 1 {
            self.pos() + 1
        } else {
            self.pos()
        }
    }

    /// A cursor on the first of `tokens`.
    pub fn new(tokens: Vec<Token>) -> (c: TokenCursor)
        ensures
            c.toks() == tokens@.map_values(|t: Token| t@),
            c.pos() == 0,
    {
        TokenCursor { tokens, position: 0 }
    }

    /// The current token.
    pub fn peek(&self) -> (t: &Token)
        requires
            self.wf(),
        ensures
            t@ == self.current(),
    {
        &self.tokens[self.position]
    }

    /// Moves to the next token, unless on the last one, and gives the token
    /// it was on.
    pub fn advance(&mut self) -> (t: Token)
        requires
            old(self).wf(),
        ensures
            final(self).wf(),
            final(self).toks() == old(self).toks(),
            final(self).pos() == old(self).next_pos(),
            t@ == old(self).current(),
    {
        let token = self.tokens[self.position].copy();
        if self.position < self.tokens.len() - 1 {
            self.position = self.position + 1;
        }
        token
    }

    /// When the current token has the kind of `expected_type`, moves past it
    /// and gives it.
    pub fn consume(&mut self, expected_type: &TokenType) -> (r: Option<Token>)
        requires
            old(self).wf(),
        ensures
            final(self).wf(),
            final(self).toks() == old(self).toks(),
            if old(self).current_tag() == expected_type@.0 {
                r matches Some(t) && t@ == old(self).current() && final(self).pos() == old(self).next_pos()
            } else {
                r is None && final(self).pos() == old(self).pos()
            },
    {
        if self.check(expected_type) {
            Some(self.advance())
        } else {
            None
        }
    }

    /// Whether the current token has the kind of `token_type` (whatever it holds).
    pub fn check(&self, token_type: &TokenType) -> (r: bool)
        requires
            self.wf(),
        ensures
            r == (self.current_tag() == token_type@.0),
    {
        self.tokens[self.position].token_type.tag() == token_type.tag()
    }

    /// Whether the current token has the kind of one of `token_types`.
    pub fn check_any(&self, token_types: &[TokenType]) -> (r: bool)
        requires
            self.wf(),
        ensures
            r == exists|i: int| 0 <= i < token_types@.len() && self.current_tag() == (#[trigger] token_types@[i])@.0,
    {
        let mut i: usize = 0;
        while i < token_types.len()
            invariant
                self.wf(),
                0 <= i <= token_types@.len(),
                forall|j: int| 0 <= j < i ==> self.current_tag() != (#[trigger] token_types@[j])@.0,
            decreases token_types@.len() - i,
        {
            if self.check(&token_types[i]) {
                return true;
            }
            i = i + 1;
        }
        false
    }

    /// Moves past the current token when it has the kind of `token_type`.
    pub fn match_token(&mut self, token_type: &TokenType) -> (r: bool)
        requires
            old(self).wf(),
        ensures
            final(self).wf(),
            final(self).toks() == old(self).toks(),
            r == (old(self).current_tag() == token_type@.0),
            final(self).pos() == if r {
                old(self).next_pos()
            } else {
                old(self).pos()
            },
    {
        if self.check(token_type) {
            self.advance();
            true
        } else {
            false
        }
    }

    /// Moves past the current token when it has the kind of one of `token_types`.
    pub fn match_any(&mut self, token_types: &[TokenType]) -> (r: bool)
        requires
            old(self).wf(),
        ensures
            final(self).wf(),
            final(self).toks() == old(self).toks(),
            r == exists|i: int|
                0 <= i < token_types@.len() && old(self).current_tag() == (#[trigger] token_types@[i])@.0,
            final(self).pos() == if r {
                old(self).next_pos()
            } else {
                old(self).pos()
            },
    {
        if self.check_any(token_types) {
            self.advance();
            true
        } else {
            false
        }
    }

    pub fn current_position(&self) -> (r: usize)
        ensures
            r == self.pos(),
    {
        self.position
    }

    /// Moves to `position`, or to the last token when that is past it.
    pub fn set_position(&mut self, position: usize)
        requires
            old(self).wf(),
        ensures
            final(self).wf(),
            final(self).toks() == old(self).toks(),
            final(self).pos() == if position < old(self).toks().len() - 1 {
                position as int
            } else {
                old(self).toks().len() - 1
            },
    {
        let last = self.tokens.len() - 1;
        self.position = if position < last {
            position
        } else {
            last
        };
    }

    /// Moves back one token, unless on the first.
    pub fn backtrack(&mut self)
        requires
            old(self).wf(),
        ensures
            final(self).wf(),
            final(self).toks() == old(self).toks(),
            final(self).pos() == if old(self).pos() > 0 {
                old(self).pos() - 1
            } else {
                0
            },
    {
        if self.position > 0 {
            self.position = self.position - 1;
        }
    }

    /// Whether the current token is the end-of-file token.
    pub fn is_at_end(&self) -> (r: bool)
        requires
            self.wf(),
        ensures
            r == (self.current_tag() == tag_eof()),
    {
        self.tokens[self.position].token_type.tag() == 54
    }

    pub fn token_count(&self) -> (r: usize)
        ensures
            r == self.toks().len(),
    {
        self.tokens.len()
    }

    /// Whether the current token has kind `tag`.
    pub fn check_tag(&self, tag: u8) -> (r: bool)
        requires
            self.wf(),
        ensures
            r == (self.current_tag() == tag as nat),
    {
        self.tokens[self.position].token_type.tag() == tag
    }

    /// Moves past the current token when it has kind `tag`.
    pub fn match_tag(&mut self, tag: u8) -> (r: bool)
        requires
            old(self).wf(),
        ensures
            final(self).wf(),
            final(self).toks() == old(self).toks(),
            r == (old(self).current_tag() == tag as nat),
            final(self).pos() == if r {
                old(self).next_pos()
            } else {
                old(self).pos()
            },
    {
        if self.check_tag(tag) {
            self.advance();
            true
        } else {
            false
        }
    }
}

} // verus!
