use vstd::prelude::*;

use crate::lexer::token::TokenView;
use crate::parser::ast::{binary_of_tag, Expr, ExprKind};
use crate::parser::{atom_matches, continues, is_atom_kind, Parser};

verus! {

// Operator expressions over simple operands: a literal, a name or `self`,
// then any number of a binary operator and such an operand. The parser
// groups them by the strength of the operators, and operators of equal
// strength to the left, except `^`, which groups to the right.

/// The kind of the token at position `k`.
pub open spec fn tag_at(toks: Seq<TokenView>, k: int) -> nat {
    toks[k].1.0
}

/// How strongly a binary operator token binds (0 for any other token):
/// `|` 1, `&` 2, `==` `!=` 3, `<` `<=` `>` `>=` 4, `@` `@@` 5, `+` `-` 6,
/// `*` `/` `%` 7, `^` 8.
pub open spec fn strength(tag: nat) -> nat {
    if tag == 36 {
        1
    } else if tag == 35 {
        2
    } else if tag == 29 || tag == 30 {
        3
    } else if 31 <= tag <= 34 {
        4
    } else if tag == 27 || tag == 28 {
        5
    } else if tag == 21 || tag == 22 {
        6
    } else if tag == 23 || tag == 24 || tag == 26 {
        7
    } else if tag == 25 {
        8
    } else {
        0
    }
}

/// From position `p` the tokens are a simple operand, then any number of a
/// binary operator and a simple operand, then a token that does not
/// continue an expression.
pub open spec fn chain_from(toks: Seq<TokenView>, p: int) -> bool
    decreases toks.len() - p,
{
    if 0 <= p && p + 1 < toks.len() {
        is_atom_kind(tag_at(toks, p)) && if strength(tag_at(toks, p + 1)) > 0 {
            chain_from(toks, p + 2)
        } else {
            !continues(tag_at(toks, p + 1))
        }
    } else {
        false
    }
}

/// Going along a chain from the operator position `k`, past each operator
/// of strength at least `lv` with its operand: where that stops.
pub open spec fn chain_stop(toks: Seq<TokenView>, k: int, lv: nat) -> int
    decreases toks.len() - k,
{
    if 0 <= k && k + 1 < toks.len() && strength(tag_at(toks, k)) >= lv && lv > 0 {
        chain_stop(toks, k + 2, lv)
    } else {
        k
    }
}

/// Every operator of the chain from the operand at `p` up to `q` has
/// strength at least `lv`.
pub open spec fn ops_at_least(toks: Seq<TokenView>, p: int, q: int, lv: nat) -> bool
    decreases q - p,
{
    if q - p <= 1 {
        true
    } else {
        strength(tag_at(toks, p + 1)) >= lv && ops_at_least(toks, p + 2, q, lv)
    }
}

/// The strength of the weakest operator of the chain from `p` up to `q`
/// (9 when it has none).
pub open spec fn weakest(toks: Seq<TokenView>, p: int, q: int) -> nat
    decreases q - p,
{
    if q - p <= 1 {
        9
    } else {
        let rest = weakest(toks, p + 2, q);
        let here = strength(tag_at(toks, p + 1));
        if here < rest {
            here
        } else {
            rest
        }
    }
}

/// The position of the last operator of strength `w` in the chain from `p`
/// up to `q` (-1 when there is none).
pub open spec fn last_of_strength(toks: Seq<TokenView>, p: int, q: int, w: nat) -> int
    decreases q - p,
{
    if q - p <= 1 {
        -1
    } else {
        let r = last_of_strength(toks, p + 2, q, w);
        if r >= 0 {
            r
        } else if strength(tag_at(toks, p + 1)) == w {
            p + 1
        } else {
            -1
        }
    }
}

/// Where the chain from `p` up to `q` splits at its top: at its last
/// weakest operator, or, when that is `^`, at its first.
pub open spec fn split_at(toks: Seq<TokenView>, p: int, q: int) -> int {
    if weakest(toks, p, q) == 8 {
        p + 1
    } else {
        last_of_strength(toks, p, q, weakest(toks, p, q))
    }
}

/// `e` is the expression of the chain from the operand at `p` up to `q`:
/// an operand alone is its atom; otherwise `e` applies the operator where
/// the chain splits to the expression of what comes before it and that of
/// what follows it, and spans from the start of the one to the end of the
/// other.
pub open spec fn chain_tree(e: Expr, toks: Seq<TokenView>, p: int, q: int) -> bool
    decreases q - p,
{
    if q <= p + 1 {
        atom_matches(toks[p], e)
    } else {
        let k = split_at(toks, p, q);
        if p < k && k < q {
            match e.kind {
                ExprKind::Binary { left, operator, right } => {
                    &&& binary_of_tag(tag_at(toks, k)) == Some(operator)
                    &&& chain_tree(*left, toks, p, k)
                    &&& chain_tree(*right, toks, k + 1, q)
                    &&& e.span@ == (
                        left.span.file@,
                        left.span.start_line,
                        left.span.start_column,
                        right.span.end_line,
                        right.span.end_column,
                    )
                },
                _ => false,
            }
        } else {
            false
        }
    }
}

/// The rest of a chain, from a later operand, is a chain.
pub proof fn lemma_chain_next(toks: Seq<TokenView>, p: int)
    requires
        chain_from(toks, p),
        strength(tag_at(toks, p + 1)) > 0,
    ensures
        chain_from(toks, p + 2),
        p + 3 < toks.len(),
{
    assert(chain_from(toks, p + 2));
    assert(p + 3 < toks.len());
}

/// A chain's operand is followed by a binary operator or by a token that
/// ends the expression.
pub proof fn lemma_chain_follow(toks: Seq<TokenView>, p: int)
    requires
        chain_from(toks, p),
    ensures
        0 <= p && p + 1 < toks.len(),
        is_atom_kind(tag_at(toks, p)),
        strength(tag_at(toks, p + 1)) > 0 || !continues(tag_at(toks, p + 1)),
{
}

/// Stopping from the operator after the operand at `p`, the operators passed
/// have the strength asked for, and what follows is neither such an
/// operator nor the middle of the chain.
pub proof fn lemma_chain_stop(toks: Seq<TokenView>, p: int, lv: nat)
    requires
        chain_from(toks, p),
        lv > 0,
    ensures
        ops_at_least(toks, p, chain_stop(toks, p + 1, lv), lv),
        chain_from(toks, chain_stop(toks, p + 1, lv) - 1),
        strength(tag_at(toks, chain_stop(toks, p + 1, lv))) < lv,
        p + 1 <= chain_stop(toks, p + 1, lv) < toks.len(),
        (chain_stop(toks, p + 1, lv) - p) % 2 == 1,
    decreases toks.len() - p,
{
    if strength(tag_at(toks, p + 1)) >= lv {
        lemma_chain_next(toks, p);
        lemma_chain_stop(toks, p + 2, lv);
    }
}

/// Stopping at a weaker strength goes on from where a stronger one stops.
pub proof fn lemma_chain_stop_compose(toks: Seq<TokenView>, k: int, lv: nat)
    requires
        lv > 0,
    ensures
        chain_stop(toks, k, lv) == chain_stop(toks, chain_stop(toks, k, lv + 1), lv),
    decreases toks.len() - k,
{
    if 0 <= k && k + 1 < toks.len() && strength(tag_at(toks, k)) >= lv + 1 {
        lemma_chain_stop_compose(toks, k + 2, lv);
    }
}

proof fn lemma_weakest_at_least(toks: Seq<TokenView>, p: int, q: int, lv: nat)
    requires
        ops_at_least(toks, p, q, lv),
    ensures
        weakest(toks, p, q) >= lv || q - p <= 1,
        forall|w: nat| w < lv ==> last_of_strength(toks, p, q, w) == -1,
    decreases q - p,
{
    if q - p > 1 {
        lemma_weakest_at_least(toks, p + 2, q, lv);
        if q - p <= 3 {
            assert(weakest(toks, p + 2, q) == 9);
        }
        assert forall|w: nat| w < lv implies last_of_strength(toks, p, q, w) == -1 by {
            assert(last_of_strength(toks, p + 2, q, w) == -1);
        }
    }
}

/// A chain whose operators all have strength at least `lv`, an operator of
/// strength `lv`, then a chain of stronger operators: the weakest is `lv`,
/// and its last one is that operator.
proof fn lemma_join_left(toks: Seq<TokenView>, p: int, c: int, r: int, lv: nat)
    requires
        0 <= p < c < r,
        (c - p) % 2 == 1,
        (r - c) % 2 == 0,
        ops_at_least(toks, p, c, lv),
        strength(tag_at(toks, c)) == lv,
        ops_at_least(toks, c + 1, r, lv + 1),
        0 < lv,
    ensures
        weakest(toks, p, r) == lv,
        last_of_strength(toks, p, r, lv) == c,
    decreases c - p,
{
    if c == p + 1 {
        lemma_weakest_at_least(toks, p + 2, r, lv + 1);
        if r - (p + 2) <= 1 {
            assert(weakest(toks, p + 2, r) == 9);
        }
        assert(last_of_strength(toks, p + 2, r, lv) == -1);
        assert(last_of_strength(toks, p, r, lv) == p + 1);
    } else {
        lemma_join_left(toks, p + 2, c, r, lv);
        assert(last_of_strength(toks, p, r, lv) == c);
    }
}

/// The chain from `p` up to `q` splits at `c`, where an operator of
/// strength `lv` follows a chain of operators at least as strong and comes
/// before a chain of stronger ones (for `^`, after a lone operand).
pub proof fn lemma_split(toks: Seq<TokenView>, p: int, c: int, q: int, lv: nat)
    requires
        0 <= p < c < q,
        (c - p) % 2 == 1,
        (q - c) % 2 == 0,
        ops_at_least(toks, p, c, lv),
        strength(tag_at(toks, c)) == lv,
        lv < 8 ==> ops_at_least(toks, c + 1, q, lv + 1),
        lv == 8 ==> c == p + 1 && ops_at_least(toks, c + 1, q, lv),
        0 < lv <= 8,
    ensures
        split_at(toks, p, q) == c,
{
    if lv == 8 {
        lemma_weakest_at_least(toks, c + 1, q, 8);
        if q - (c + 1) <= 1 {
            assert(weakest(toks, c + 1, q) == 9);
        }
        assert(weakest(toks, p, q) == 8);
    } else {
        lemma_join_left(toks, p, c, q, lv);
    }
}

/// A chain over one more operator and operand keeps the operators seen.
pub proof fn lemma_ops_extend(toks: Seq<TokenView>, p: int, c: int, q: int, lv: nat)
    requires
        p < c < q,
        (c - p) % 2 == 1,
        ops_at_least(toks, p, c, lv),
        strength(tag_at(toks, c)) >= lv,
        ops_at_least(toks, c + 1, q, lv),
    ensures
        ops_at_least(toks, p, q, lv),
    decreases c - p,
{
    if c > p + 1 {
        lemma_ops_extend(toks, p + 2, c, q, lv);
    }
}

/// Operators at least as strong as a stronger bound are at least as strong
/// as a weaker one.
pub proof fn lemma_ops_weaken(toks: Seq<TokenView>, p: int, q: int, lv: nat, lv2: nat)
    requires
        ops_at_least(toks, p, q, lv),
        lv2 <= lv,
    ensures
        ops_at_least(toks, p, q, lv2),
    decreases q - p,
{
    if q - p > 1 {
        lemma_ops_weaken(toks, p + 2, q, lv, lv2);
    }
}

/// `a` stands on the first operand of a chain.
pub open spec fn at_chain(a: Parser) -> bool {
    chain_from(a.toks(), a.pos())
}

/// `b` is `a` after parsing the chain from the operand where `a` stands,
/// up to its first operator weaker than `lv`, into `e`, with no new error.
pub open spec fn parsed_chain(a: Parser, b: Parser, e: Expr, lv: nat) -> bool {
    let q = chain_stop(a.toks(), a.pos() + 1, lv);
    &&& b.toks() == a.toks()
    &&& b.pos() == q
    &&& b.diags() == a.diags()
    &&& chain_tree(e, a.toks(), a.pos(), q)
}

/// Part way through parsing, at strength `lv`, the chain from the operand
/// where `a` stands: `b` has parsed it up to its position into `e`, over
/// operators of strength at least `lv`, and stands on the end or on an
/// operator no stronger than `lv`.
pub open spec fn chain_progress(a: Parser, b: Parser, e: Expr, lv: nat) -> bool {
    let toks = a.toks();
    let p = a.pos();
    let cur = b.pos();
    &&& b.toks() == toks
    &&& b.diags() == a.diags()
    &&& 0 <= p < cur < toks.len()
    &&& (cur - p) % 2 == 1
    &&& chain_tree(e, toks, p, cur)
    &&& ops_at_least(toks, p, cur, lv)
    &&& chain_from(toks, cur - 1)
    &&& strength(tag_at(toks, cur)) <= lv
    &&& chain_stop(toks, p + 1, lv) == chain_stop(toks, cur, lv)
}

/// The operand parsed at the next strength starts the chain at `lv`.
pub proof fn lemma_progress_start(a: Parser, b: Parser, e: Expr, lv: nat)
    requires
        at_chain(a),
        parsed_chain(a, b, e, lv + 1),
        1 <= lv <= 7,
    ensures
        chain_progress(a, b, e, lv),
{
    let toks = a.toks();
    let p = a.pos();
    lemma_chain_stop(toks, p, lv + 1);
    lemma_ops_weaken(toks, p, b.pos(), lv + 1, lv);
    lemma_chain_stop_compose(toks, p + 1, lv);
}

/// On an operator of strength `lv`, the chain goes on with an operand.
pub proof fn lemma_progress_next(a: Parser, b: Parser, e: Expr, lv: nat)
    requires
        chain_progress(a, b, e, lv),
        strength(tag_at(a.toks(), b.pos())) == lv,
        lv > 0,
    ensures
        chain_from(a.toks(), b.pos() + 1),
        b.pos() + 1 < a.toks().len(),
{
    lemma_chain_next(a.toks(), b.pos() - 1);
}

/// After the operator at its position and the operand that follows, parsed
/// at the next strength, the chain has grown by one operator, which groups
/// what came before it with that operand.
pub proof fn lemma_progress_step(a: Parser, b: Parser, e: Expr, m: Parser, c: Parser, right: Expr, f: Expr, lv: nat)
    requires
        chain_progress(a, b, e, lv),
        strength(tag_at(a.toks(), b.pos())) == lv,
        1 <= lv <= 7,
        m.toks() == a.toks(),
        m.pos() == b.pos() + 1,
        m.diags() == a.diags(),
        at_chain(m),
        parsed_chain(m, c, right, lv + 1),
        f.kind matches ExprKind::Binary { left, operator, right: r } && *left == e && *r == right
            && binary_of_tag(tag_at(a.toks(), b.pos())) == Some(operator),
        f.span@ == (e.span.file@, e.span.start_line, e.span.start_column, right.span.end_line, right.span.end_column),
    ensures
        chain_progress(a, c, f, lv),
{
    let toks = a.toks();
    let p = a.pos();
    let cur = b.pos();
    let r2 = c.pos();
    lemma_chain_stop(toks, cur + 1, lv + 1);
    lemma_ops_weaken(toks, cur + 1, r2, lv + 1, lv);
    lemma_ops_extend(toks, p, cur, r2, lv);
    lemma_split(toks, p, cur, r2, lv);
    lemma_chain_stop_compose(toks, cur + 2, lv);
    assert(chain_stop(toks, cur, lv) == chain_stop(toks, cur + 2, lv));
}

/// Off an operator of strength `lv`, the chain at `lv` is parsed.
pub proof fn lemma_progress_end(a: Parser, b: Parser, e: Expr, lv: nat)
    requires
        chain_progress(a, b, e, lv),
        strength(tag_at(a.toks(), b.pos())) != lv,
        lv > 0,
    ensures
        parsed_chain(a, b, e, lv),
{
}

} // verus!
