use vstd::prelude::*;

use crate::ir::block::block_names;
use crate::ir::module::{first_pos, lemma_first_pos, IRFunction};

verus! {

// Blocks are identified by name: a name stands for the first block that
// carries it, and a name that no block carries stands for nothing. The
// analyses below work on block indices, over the blocks that names stand
// for (the "nodes"); the entry is block 0.

/// Whether block `i` is the first block with its name.
pub open spec fn is_node(ids: Seq<Seq<char>>, i: int) -> bool {
    0 <= i < ids.len() && first_pos(ids, ids[i]) == i
}

/// The blocks the predecessors of block `b` name, in order (-1 for a name
/// that no block carries).
pub open spec fn pred_pos(f: IRFunction, b: int) -> Seq<int> {
    block_names(f.blocks@[b].predecessors@).map_values(|p: Seq<char>| first_pos(f.block_ids(), p))
}

/// The blocks the successors of block `b` name, in order (-1 for a name
/// that no block carries).
pub open spec fn succ_pos(f: IRFunction, b: int) -> Seq<int> {
    block_names(f.blocks@[b].successors@).map_values(|p: Seq<char>| first_pos(f.block_ids(), p))
}

/// Whether some predecessor of block `b` names a block.
pub open spec fn has_known_pred(f: IRFunction, b: int) -> bool {
    exists|j: int| #![trigger pred_pos(f, b)[j]] 0 <= j < pred_pos(f, b).len() && pred_pos(f, b)[j] >= 0
}

/// The dominator equation of block `b`, at block `x`: `x` is `b`, or `b`
/// has a known predecessor and `x` is in the set of each of them.
pub open spec fn dom_step(f: IRFunction, d: Seq<Seq<bool>>, b: int, x: int) -> bool {
    x == b || (has_known_pred(f, b) && forall|j: int|
        #![trigger pred_pos(f, b)[j]]
        0 <= j < pred_pos(f, b).len() && pred_pos(f, b)[j] >= 0 ==> d[pred_pos(f, b)[j]][x])
}

/// `n` rows of `n` bits.
pub open spec fn square(d: Seq<Seq<bool>>, n: int) -> bool {
    d.len() == n && forall|i: int| 0 <= i < n ==> #[trigger] d[i].len() == n
}

/// Every set of `g` is included in the matching set of `d`.
pub open spec fn below(g: Seq<Seq<bool>>, d: Seq<Seq<bool>>) -> bool {
    forall|b: int, x: int| 0 <= b < d.len() && 0 <= x < d[b].len() && #[trigger] g[b][x] ==> d[b][x]
}

/// A solution of the dominator equations of `f`, as one set of blocks per
/// block: the entry has itself alone, a block no name stands for has
/// nothing, every other block satisfies its equation, and only nodes are
/// members.
pub open spec fn dom_solution(f: IRFunction, d: Seq<Seq<bool>>) -> bool {
    let ids = f.block_ids();
    let n = ids.len() as int;
    &&& square(d, n)
    &&& forall|b: int, x: int| 0 <= b < n && 0 <= x < n && #[trigger] d[b][x] ==> is_node(ids, x)
    &&& forall|x: int| 0 <= x < n ==> #[trigger] d[0][x] == (x == 0)
    &&& forall|b: int, x: int|
        0 < b < n && 0 <= x < n && is_node(ids, b) ==> #[trigger] d[b][x] == dom_step(f, d, b, x)
    &&& forall|b: int, x: int| 0 <= b < n && 0 <= x < n && !is_node(ids, b) ==> !#[trigger] d[b][x]
}

/// The dominator sets of `f`: the greatest solution of its equations.
pub open spec fn is_dominators(f: IRFunction, d: Seq<Seq<bool>>) -> bool {
    &&& dom_solution(f, d)
    &&& forall|g: Seq<Seq<bool>>| #[trigger] dom_solution(f, g) ==> below(g, d)
}

/// The rows of a matrix of bits.
pub open spec fn rows(d: Seq<Vec<bool>>) -> Seq<Seq<bool>> {
    d.map_values(|r: Vec<bool>| r@)
}

/// The number of bits set in a row.
pub open spec fn count_row(r: Seq<bool>) -> nat
    decreases r.len(),
{
    if r.len() == 0 {
        0
    } else {
        count_row(r.drop_last()) + if r.last() {
            1nat
        } else {
            0nat
        }
    }
}

/// The number of bits set in a matrix.
pub open spec fn count_all(d: Seq<Seq<bool>>) -> nat
    decreases d.len(),
{
    if d.len() == 0 {
        0
    } else {
        count_all(d.drop_last()) + count_row(d.last())
    }
}

proof fn lemma_count_row_le(a: Seq<bool>, b: Seq<bool>)
    requires
        a.len() == b.len(),
        forall|x: int| 0 <= x < a.len() && #[trigger] a[x] ==> b[x],
    ensures
        count_row(a) <= count_row(b),
        a != b ==> count_row(a) < count_row(b),
    decreases a.len(),
{
    if a.len() > 0 {
        lemma_count_row_le(a.drop_last(), b.drop_last());
        if a != b && a.drop_last() == b.drop_last() {
            assert(a.last() != b.last()) by {
                if a.last() == b.last() {
                    assert forall|x: int| 0 <= x < a.len() implies a[x] == b[x] by {
                        if x < a.len() - 1 {
                            assert(a.drop_last()[x] == a[x]);
                            assert(b.drop_last()[x] == b[x]);
                        }
                    }
                    assert(a =~= b);
                }
            }
        }
    } else {
        assert(a =~= b);
    }
}

proof fn lemma_count_all_update(d: Seq<Seq<bool>>, b: int, r: Seq<bool>)
    requires
        0 <= b < d.len(),
    ensures
        count_all(d.update(b, r)) + count_row(d[b]) == count_all(d) + count_row(r),
    decreases d.len(),
{
    let e = d.update(b, r);
    if b == d.len() - 1 {
        assert(e.drop_last() =~= d.drop_last());
    } else {
        lemma_count_all_update(d.drop_last(), b, r);
        assert(e.drop_last() =~= d.drop_last().update(b, r));
    }
}

/// For each block, whether its name stands for it.
fn node_mask(f: &IRFunction) -> (m: Vec<bool>)
    ensures
        m@.len() == f.blocks@.len(),
        forall|i: int| 0 <= i < m@.len() ==> #[trigger] m@[i] == is_node(f.block_ids(), i),
{
    let ghost ids = f.block_ids();
    let mut m: Vec<bool> = Vec::new();
    let mut i: usize = 0;
    while i < f.blocks.len()
        invariant
            0 <= i <= f.blocks@.len(),
            ids == f.block_ids(),
            m@.len() == i,
            forall|k: int| 0 <= k < i ==> #[trigger] m@[k] == is_node(ids, k),
        decreases f.blocks@.len() - i,
    {
        let found = f.find_block(f.blocks[i].id.0.as_str());
        assert(ids[i as int] == f.blocks@[i as int].id.0@);
        m.push(
            match found {
                Some(k) => k == i,
                None => false,
            },
        );
        i = i + 1;
    }
    m
}

/// The blocks a list of names stands for, in order (`None` for a name no
/// block carries).
fn name_positions(f: &IRFunction, names: &Vec<crate::ir::block::BasicBlockId>) -> (r: Vec<Option<usize>>)
    ensures
        r@.len() == names@.len(),
        forall|j: int|
            0 <= j < r@.len() ==> match #[trigger] r@[j] {
                Some(k) => k as int == first_pos(f.block_ids(), names@[j].0@) && k < f.blocks@.len(),
                None => first_pos(f.block_ids(), names@[j].0@) == -1,
            },
{
    let mut r: Vec<Option<usize>> = Vec::new();
    let mut j: usize = 0;
    while j < names.len()
        invariant
            0 <= j <= names@.len(),
            r@.len() == j,
            forall|q: int|
                0 <= q < j ==> match #[trigger] r@[q] {
                    Some(k) => k as int == first_pos(f.block_ids(), names@[q].0@) && k < f.blocks@.len(),
                    None => first_pos(f.block_ids(), names@[q].0@) == -1,
                },
        decreases names@.len() - j,
    {
        r.push(f.find_block(names[j].0.as_str()));
        j = j + 1;
    }
    r
}

/// Whether `pp` lists the blocks that `names` stand for.
pub open spec fn positions_of(pp: Seq<Option<usize>>, pos: Seq<int>) -> bool {
    &&& pp.len() == pos.len()
    &&& forall|j: int|
        0 <= j < pp.len() ==> match #[trigger] pp[j] {
            Some(k) => k as int == pos[j] && pos[j] >= 0,
            None => pos[j] == -1,
        }
}

/// The predecessor positions of every block.
fn all_pred_positions(f: &IRFunction) -> (r: Vec<Vec<Option<usize>>>)
    ensures
        r@.len() == f.blocks@.len(),
        forall|b: int| 0 <= b < r@.len() ==> positions_of(#[trigger] r@[b]@, pred_pos(*f, b)),
{
    let mut r: Vec<Vec<Option<usize>>> = Vec::new();
    let mut b: usize = 0;
    while b < f.blocks.len()
        invariant
            0 <= b <= f.blocks@.len(),
            r@.len() == b,
            forall|q: int| 0 <= q < b ==> positions_of(#[trigger] r@[q]@, pred_pos(*f, q)),
        decreases f.blocks@.len() - b,
    {
        let pp = name_positions(f, &f.blocks[b].predecessors);
        proof {
            let pos = pred_pos(*f, b as int);
            assert forall|j: int| 0 <= j < pp@.len() implies match #[trigger] pp@[j] {
                Some(k) => k as int == pos[j] && pos[j] >= 0,
                None => pos[j] == -1,
            } by {
                assert(block_names(f.blocks@[b as int].predecessors@)[j] == f.blocks@[b as int].predecessors@[j].0@);
            }
        }
        r.push(pp);
        b = b + 1;
    }
    r
}

/// The successor positions of every block.
pub(crate) fn all_succ_positions(f: &IRFunction) -> (r: Vec<Vec<Option<usize>>>)
    ensures
        r@.len() == f.blocks@.len(),
        forall|b: int| 0 <= b < r@.len() ==> positions_of(#[trigger] r@[b]@, succ_pos(*f, b)),
{
    let mut r: Vec<Vec<Option<usize>>> = Vec::new();
    let mut b: usize = 0;
    while b < f.blocks.len()
        invariant
            0 <= b <= f.blocks@.len(),
            r@.len() == b,
            forall|q: int| 0 <= q < b ==> positions_of(#[trigger] r@[q]@, succ_pos(*f, q)),
        decreases f.blocks@.len() - b,
    {
        let pp = name_positions(f, &f.blocks[b].successors);
        proof {
            let pos = succ_pos(*f, b as int);
            assert forall|j: int| 0 <= j < pp@.len() implies match #[trigger] pp@[j] {
                Some(k) => k as int == pos[j] && pos[j] >= 0,
                None => pos[j] == -1,
            } by {
                assert(block_names(f.blocks@[b as int].successors@)[j] == f.blocks@[b as int].successors@[j].0@);
            }
        }
        r.push(pp);
        b = b + 1;
    }
    r
}

/// What the computation of the dominator sets keeps: the shape of a
/// solution, and no set smaller than its equation asks.
pub open spec fn dom_invariant(f: IRFunction, d: Seq<Seq<bool>>) -> bool {
    let ids = f.block_ids();
    let n = ids.len() as int;
    &&& square(d, n)
    &&& forall|b: int, x: int| 0 <= b < n && 0 <= x < n && #[trigger] d[b][x] ==> is_node(ids, x)
    &&& forall|x: int| 0 <= x < n ==> #[trigger] d[0][x] == (x == 0)
    &&& forall|b: int, x: int| 0 <= b < n && 0 <= x < n && !is_node(ids, b) ==> !#[trigger] d[b][x]
    &&& forall|b: int, x: int|
        0 < b < n && 0 <= x < n && is_node(ids, b) && #[trigger] dom_step(f, d, b, x) ==> d[b][x]
}

proof fn lemma_pred_pos_range(f: IRFunction, b: int, j: int)
    requires
        0 <= b < f.blocks@.len(),
        0 <= j < pred_pos(f, b).len(),
    ensures
        -1 <= pred_pos(f, b)[j] < f.blocks@.len(),
        pred_pos(f, b)[j] >= 0 ==> is_node(f.block_ids(), pred_pos(f, b)[j]),
{
    let ids = f.block_ids();
    let p = block_names(f.blocks@[b].predecessors@)[j];
    lemma_first_pos(ids, p);
    let k = first_pos(ids, p);
    if k >= 0 {
        lemma_first_pos(ids, ids[k]);
    }
}

proof fn lemma_dom_step_monotone(f: IRFunction, g: Seq<Seq<bool>>, d: Seq<Seq<bool>>, b: int, x: int)
    requires
        square(d, f.blocks@.len() as int),
        below(g, d),
        0 <= b < f.blocks@.len(),
        0 <= x < f.blocks@.len(),
        dom_step(f, g, b, x),
    ensures
        dom_step(f, d, b, x),
{
    if x != b {
        assert forall|j: int|
            #![trigger pred_pos(f, b)[j]]
            0 <= j < pred_pos(f, b).len() && pred_pos(f, b)[j] >= 0 implies d[pred_pos(f, b)[j]][x] by {
            lemma_pred_pos_range(f, b, j);
            assert(g[pred_pos(f, b)[j]][x]);
        }
    }
}

/// Whether two rows hold the same bits.
fn same_bits(a: &Vec<bool>, b: &Vec<bool>) -> (r: bool)
    requires
        a@.len() == b@.len(),
    ensures
        r == (a@ == b@),
{
    let mut x: usize = 0;
    while x < a.len()
        invariant
            0 <= x <= a@.len(),
            a@.len() == b@.len(),
            forall|y: int| 0 <= y < x ==> a@[y] == b@[y],
        decreases a@.len() - x,
    {
        if a[x] != b[x] {
            return false;
        }
        x = x + 1;
    }
    assert(a@ =~= b@);
    true
}

/// The bits of the equation of block `b` over the rows `d`, where `pp` gives
/// the blocks the predecessors of `b` stand for.
fn step_row(d: &Vec<Vec<bool>>, pp: &Vec<Option<usize>>, b: usize, n: usize) -> (r: Vec<bool>)
    requires
        square(rows(d@), n as int),
        b < n,
        forall|j: int| 0 <= j < pp@.len() ==> match #[trigger] pp@[j] {
            Some(k) => k < n,
            None => true,
        },
    ensures
        r@.len() == n,
        forall|x: int|
            0 <= x < n ==> #[trigger] r@[x] == (x == b || ((exists|j: int|
                0 <= j < pp@.len() && #[trigger] pp@[j] is Some) && forall|j: int|
                0 <= j < pp@.len() && #[trigger] pp@[j] is Some ==> rows(d@)[pp@[j]->0 as int][x])),
{
    let mut acc: Vec<bool> = Vec::new();
    let mut x: usize = 0;
    while x < n
        invariant
            0 <= x <= n,
            acc@.len() == x,
            forall|y: int| 0 <= y < x ==> #[trigger] acc@[y],
        decreases n - x,
    {
        acc.push(true);
        x = x + 1;
    }
    let mut seen = false;
    let mut j: usize = 0;
    while j < pp.len()
        invariant
            0 <= j <= pp@.len(),
            square(rows(d@), n as int),
            forall|q: int| 0 <= q < pp@.len() ==> match #[trigger] pp@[q] {
                Some(k) => k < n,
                None => true,
            },
            acc@.len() == n,
            seen == exists|q: int| 0 <= q < j && #[trigger] pp@[q] is Some,
            forall|y: int|
                0 <= y < n ==> #[trigger] acc@[y] == forall|q: int|
                    0 <= q < j && #[trigger] pp@[q] is Some ==> rows(d@)[pp@[q]->0 as int][y],
        decreases pp@.len() - j,
    {
        match pp[j] {
            Some(k) => {
                let ghost before = acc@;
                assert(rows(d@)[k as int] == d@[k as int]@);
                let mut y: usize = 0;
                while y < n
                    invariant
                        0 <= y <= n,
                        k < n,
                        square(rows(d@), n as int),
                        d@[k as int]@.len() == n,
                        rows(d@)[k as int] == d@[k as int]@,
                        acc@.len() == n,
                        before.len() == n,
                        forall|z: int| 0 <= z < y ==> #[trigger] acc@[z] == (before[z] && rows(d@)[k as int][z]),
                        forall|z: int| y <= z < n ==> #[trigger] acc@[z] == before[z],
                    decreases n - y,
                {
                    let v = acc[y] && d[k][y];
                    acc.set(y, v);
                    y = y + 1;
                }
                seen = true;
                proof {
                    assert forall|z: int|
                        0 <= z < n implies #[trigger] acc@[z] == forall|q: int|
                            0 <= q < j + 1 && #[trigger] pp@[q] is Some ==> rows(d@)[pp@[q]->0 as int][z] by {
                        if acc@[z] {
                            assert forall|q: int|
                                0 <= q < j + 1 && #[trigger] pp@[q] is Some implies rows(d@)[pp@[q]->0 as int][z] by {
                                if q < j {
                                    assert(before[z]);
                                }
                            }
                        } else {
                            if !before[z] {
                                let q = choose|q: int|
                                    !(0 <= q < j && #[trigger] pp@[q] is Some ==> rows(d@)[pp@[q]->0 as int][z]);
                                assert(!(0 <= q < j + 1 && pp@[q] is Some ==> rows(d@)[pp@[q]->0 as int][z]));
                            } else {
                                assert(!(0 <= j < j + 1 && pp@[j as int] is Some ==> rows(d@)[pp@[j as int]->0 as int][z]));
                            }
                        }
                    }
                    assert(pp@[j as int] is Some);
                }
            },
            None => {
                proof {
                    assert forall|z: int|
                        0 <= z < n implies #[trigger] acc@[z] == forall|q: int|
                            0 <= q < j + 1 && #[trigger] pp@[q] is Some ==> rows(d@)[pp@[q]->0 as int][z] by {
                        if !acc@[z] {
                            let q = choose|q: int|
                                !(0 <= q < j && #[trigger] pp@[q] is Some ==> rows(d@)[pp@[q]->0 as int][z]);
                            assert(!(0 <= q < j + 1 && pp@[q] is Some ==> rows(d@)[pp@[q]->0 as int][z]));
                        }
                    }
                    if exists|q: int| 0 <= q < j + 1 && #[trigger] pp@[q] is Some {
                        let q = choose|q: int| 0 <= q < j + 1 && #[trigger] pp@[q] is Some;
                        assert(q < j);
                    }
                }
            },
        }
        j = j + 1;
    }
    let mut r: Vec<bool> = Vec::new();
    let mut x: usize = 0;
    while x < n
        invariant
            0 <= x <= n,
            acc@.len() == n,
            r@.len() == x,
            forall|y: int| 0 <= y < x ==> #[trigger] r@[y] == (y == b || (seen && acc@[y])),
        decreases n - x,
    {
        r.push(x == b || (seen && acc[x]));
        x = x + 1;
    }
    proof {
        assert(j == pp@.len());
    }
    r
}

/// The dominator sets of the blocks of `f`, one row of bits per block.
/// They start full (the entry alone for the entry) and are narrowed to
/// their equation until none changes.
pub(crate) fn dominators(f: &IRFunction) -> (d: Vec<Vec<bool>>)
    requires
        f.blocks@.len() > 0,
    ensures
        is_dominators(*f, rows(d@)),
{
    let n = f.blocks.len();
    let ghost ids = f.block_ids();
    let mask = node_mask(f);
    let preds = all_pred_positions(f);
    proof {
        lemma_first_pos(ids, ids[0]);
    }
    let mut d: Vec<Vec<bool>> = Vec::new();
    let mut b: usize = 0;
    while b < n
        invariant
            0 <= b <= n,
            n == f.blocks@.len(),
            ids == f.block_ids(),
            mask@.len() == n,
            forall|i: int| 0 <= i < n ==> #[trigger] mask@[i] == is_node(ids, i),
            d@.len() == b,
            forall|q: int| 0 <= q < b ==> #[trigger] d@[q]@.len() == n,
            forall|q: int, x: int|
                0 <= q < b && 0 <= x < n ==> #[trigger] d@[q]@[x] == if q == 0 {
                    x == 0
                } else if is_node(ids, q) {
                    is_node(ids, x)
                } else {
                    false
                },
        decreases n - b,
    {
        let mut row: Vec<bool> = Vec::new();
        let mut x: usize = 0;
        while x < n
            invariant
                0 <= x <= n,
                0 <= b < n,
                n == f.blocks@.len(),
                mask@.len() == n,
                forall|i: int| 0 <= i < n ==> #[trigger] mask@[i] == is_node(ids, i),
                row@.len() == x,
                forall|y: int|
                    0 <= y < x ==> #[trigger] row@[y] == if b == 0 {
                        y == 0
                    } else if is_node(ids, b as int) {
                        is_node(ids, y)
                    } else {
                        false
                    },
            decreases n - x,
        {
            row.push(
                if b == 0 {
                    x == 0
                } else if mask[b] {
                    mask[x]
                } else {
                    false
                },
            );
            x = x + 1;
        }
        d.push(row);
        b = b + 1;
    }
    proof {
        let dv = rows(d@);
        assert(square(dv, n as int));
        assert forall|c: int, x: int| 0 < c < n && 0 <= x < n && is_node(ids, c) && #[trigger] dom_step(*f, dv, c, x) implies dv[c][x] by {
            if x != c {
                let j = choose|j: int| #![trigger pred_pos(*f, c)[j]] 0 <= j < pred_pos(*f, c).len() && pred_pos(*f, c)[j] >= 0;
                lemma_pred_pos_range(*f, c, j);
                let p = pred_pos(*f, c)[j];
                assert(dv[p][x]);
            }
        }
        assert(dom_invariant(*f, dv));
        assert forall|g: Seq<Seq<bool>>| #[trigger] dom_solution(*f, g) implies below(g, dv) by {
            assert forall|c: int, x: int| 0 <= c < dv.len() && 0 <= x < dv[c].len() && #[trigger] g[c][x] implies dv[c][x] by {
                if c == 0 {
                    assert(g[0][x] == (x == 0));
                }
            }
        }
    }
    let mut changed = true;
    while changed
        invariant
            n >= 1,
            n == f.blocks@.len(),
            ids == f.block_ids(),
            mask@.len() == n,
            forall|i: int| 0 <= i < n ==> #[trigger] mask@[i] == is_node(ids, i),
            preds@.len() == n,
            forall|c: int| 0 <= c < n ==> positions_of(#[trigger] preds@[c]@, pred_pos(*f, c)),
            dom_invariant(*f, rows(d@)),
            forall|g: Seq<Seq<bool>>| #[trigger] dom_solution(*f, g) ==> below(g, rows(d@)),
            !changed ==> dom_solution(*f, rows(d@)),
        decreases count_all(rows(d@)), if changed {
            1int
        } else {
            0int
        },
    {
        let ghost start = rows(d@);
        changed = false;
        let mut b: usize = 1;
        while b < n
            invariant
                1 <= b <= n,
                n == f.blocks@.len(),
                ids == f.block_ids(),
                mask@.len() == n,
                forall|i: int| 0 <= i < n ==> #[trigger] mask@[i] == is_node(ids, i),
                preds@.len() == n,
                forall|c: int| 0 <= c < n ==> positions_of(#[trigger] preds@[c]@, pred_pos(*f, c)),
                dom_invariant(*f, rows(d@)),
                forall|g: Seq<Seq<bool>>| #[trigger] dom_solution(*f, g) ==> below(g, rows(d@)),
                count_all(rows(d@)) <= count_all(start),
                changed ==> count_all(rows(d@)) < count_all(start),
                !changed ==> rows(d@) == start,
                !changed ==> forall|c: int, x: int|
                    1 <= c < b && 0 <= x < n && is_node(ids, c) ==> #[trigger] rows(d@)[c][x] == dom_step(
                        *f,
                        rows(d@),
                        c,
                        x,
                    ),
            decreases n - b,
        {
            if mask[b] {
                let ghost dv = rows(d@);
                proof {
                    assert forall|j: int| 0 <= j < preds@[b as int]@.len() implies match #[trigger] preds@[b as int]@[j] {
                        Some(k) => k < n,
                        None => true,
                    } by {
                        if preds@[b as int]@[j] is Some {
                            lemma_pred_pos_range(*f, b as int, j);
                        }
                    }
                }
                let row = step_row(&d, &preds[b], b, n);
                proof {
                    let pp = preds@[b as int]@;
                    let pos = pred_pos(*f, b as int);
                    assert forall|x: int| 0 <= x < n implies #[trigger] row@[x] == dom_step(*f, dv, b as int, x) by {
                        if has_known_pred(*f, b as int) {
                            let j = choose|j: int| #![trigger pos[j]] 0 <= j < pos.len() && pos[j] >= 0;
                            assert(pp[j] is Some);
                        }
                        if exists|j: int| 0 <= j < pp.len() && #[trigger] pp[j] is Some {
                            let j = choose|j: int| 0 <= j < pp.len() && #[trigger] pp[j] is Some;
                            assert(pos[j] >= 0);
                        }
                        assert((forall|j: int| 0 <= j < pp.len() && #[trigger] pp[j] is Some ==> dv[pp[j]->0 as int][x])
                            == (forall|j: int| #![trigger pos[j]] 0 <= j < pos.len() && pos[j] >= 0 ==> dv[pos[j]][x])) by {
                            if forall|j: int| 0 <= j < pp.len() && #[trigger] pp[j] is Some ==> dv[pp[j]->0 as int][x] {
                                assert forall|j: int| #![trigger pos[j]] 0 <= j < pos.len() && pos[j] >= 0 implies dv[pos[j]][x] by {
                                    assert(pp[j] is Some);
                                }
                            }
                            if forall|j: int| #![trigger pos[j]] 0 <= j < pos.len() && pos[j] >= 0 ==> dv[pos[j]][x] {
                                assert forall|j: int| 0 <= j < pp.len() && #[trigger] pp[j] is Some implies dv[pp[j]->0 as int][x] by {
                                    assert(pos[j] >= 0);
                                }
                            }
                        }
                    }
                    assert(d@[b as int]@ == dv[b as int]);
                }
                if !same_bits(&row, &d[b]) {
                    proof {
                        let r = row@;
                        let d2 = dv.update(b as int, r);
                        assert forall|x: int| 0 <= x < r.len() && #[trigger] r[x] implies dv[b as int][x] by {}
                        lemma_count_row_le(r, dv[b as int]);
                        lemma_count_all_update(dv, b as int, r);
                        assert(below(d2, dv));
                        assert forall|c: int, x: int|
                            0 < c < n && 0 <= x < n && is_node(ids, c) && #[trigger] dom_step(*f, d2, c, x) implies d2[c][x] by {
                            lemma_dom_step_monotone(*f, d2, dv, c, x);
                        }
                        assert forall|c: int, x: int| 0 <= c < n && 0 <= x < n && #[trigger] d2[c][x] implies is_node(ids, x) by {
                            if c == b && x != b {
                                let j = choose|j: int| #![trigger pred_pos(*f, b as int)[j]] 0 <= j < pred_pos(*f, b as int).len() && pred_pos(*f, b as int)[j] >= 0;
                                lemma_pred_pos_range(*f, b as int, j);
                                assert(dv[pred_pos(*f, b as int)[j]][x]);
                            }
                        }
                        assert(dom_invariant(*f, d2));
                        assert forall|g: Seq<Seq<bool>>| #[trigger] dom_solution(*f, g) implies below(g, d2) by {
                            assert(below(g, dv));
                            assert forall|c: int, x: int| 0 <= c < d2.len() && 0 <= x < d2[c].len() && #[trigger] g[c][x] implies d2[c][x] by {
                                if c == b {
                                    assert(g[c][x] == dom_step(*f, g, c, x));
                                    lemma_dom_step_monotone(*f, g, dv, c, x);
                                }
                            }
                        }
                    }
                    d.set(b, row);
                    proof {
                        assert(rows(d@) =~= dv.update(b as int, row@));
                    }
                    changed = true;
                }
            }
            b = b + 1;
        }
    }
    d
}

/// Two greatest solutions are the same: the dominator sets are determined.
proof fn lemma_dominators_unique(f: IRFunction, d1: Seq<Seq<bool>>, d2: Seq<Seq<bool>>)
    requires
        is_dominators(f, d1),
        is_dominators(f, d2),
    ensures
        d1 == d2,
{
    let n = f.blocks@.len() as int;
    assert(below(d1, d2));
    assert(below(d2, d1));
    assert forall|b: int| 0 <= b < n implies #[trigger] d1[b] == d2[b] by {
        assert forall|x: int| 0 <= x < n implies d1[b][x] == d2[b][x] by {
            if d1[b][x] {
                assert(d2[b][x]);
            }
            if d2[b][x] {
                assert(d1[b][x]);
            }
        }
        assert(d1[b] =~= d2[b]);
    }
    assert(d1 =~= d2);
}

/// The dominator sets of the blocks of `f` (see `is_dominators`).
pub open spec fn dom_sets(f: IRFunction) -> Seq<Seq<bool>> {
    choose|d: Seq<Seq<bool>>| is_dominators(f, d)
}

/// The dominator sets, named.
pub(crate) fn dominator_sets(f: &IRFunction) -> (d: Vec<Vec<bool>>)
    requires
        f.blocks@.len() > 0,
    ensures
        rows(d@) == dom_sets(*f),
        is_dominators(*f, dom_sets(*f)),
{
    let d = dominators(f);
    proof {
        let e = dom_sets(*f);
        assert(is_dominators(*f, e));
        lemma_dominators_unique(*f, rows(d@), e);
    }
    d
}

/// Whether `x` is a dominator of block `b` other than `b` itself.
pub open spec fn strict_dom(d: Seq<Seq<bool>>, b: int, x: int) -> bool {
    0 <= x < d.len() && d[b][x] && x != b
}

/// Whether `i` is the immediate dominator of block `b` in the sets `d`:
/// among the other dominators of `b`, one with the most dominators of its
/// own (the first such); -1 when `b` has no other dominator.
pub open spec fn is_idom(d: Seq<Seq<bool>>, b: int, i: int) -> bool {
    if exists|x: int| #[trigger] strict_dom(d, b, x) {
        &&& strict_dom(d, b, i)
        &&& forall|x: int| #[trigger] strict_dom(d, b, x) ==> count_row(d[x]) <= count_row(d[i])
        &&& forall|x: int| 0 <= x < i && #[trigger] strict_dom(d, b, x) ==> count_row(d[x]) < count_row(d[i])
    } else {
        i == -1
    }
}

proof fn lemma_idom_unique(d: Seq<Seq<bool>>, b: int, i: int, j: int)
    requires
        is_idom(d, b, i),
        is_idom(d, b, j),
    ensures
        i == j,
{
    if exists|x: int| #[trigger] strict_dom(d, b, x) {
        if i < j {
            assert(count_row(d[i]) < count_row(d[j]));
        } else if j < i {
            assert(count_row(d[j]) < count_row(d[i]));
        }
    }
}

/// The immediate dominator of block `b` of `f`, or -1.
pub open spec fn idom_of(f: IRFunction, b: int) -> int {
    choose|i: int| is_idom(dom_sets(f), b, i)
}

proof fn lemma_count_row_step(r: Seq<bool>, k: int)
    requires
        0 <= k < r.len(),
    ensures
        count_row(r.take(k + 1)) == count_row(r.take(k)) + if r[k] {
            1nat
        } else {
            0nat
        },
        count_row(r.take(k)) <= k,
{
    assert(r.take(k + 1).drop_last() =~= r.take(k));
    lemma_count_row_bound(r.take(k));
}

pub proof fn lemma_count_row_bound(r: Seq<bool>)
    ensures
        count_row(r) <= r.len(),
    decreases r.len(),
{
    if r.len() > 0 {
        lemma_count_row_bound(r.drop_last());
    }
}

/// The number of bits set in a row.
fn row_count(r: &Vec<bool>) -> (c: usize)
    ensures
        c == count_row(r@),
{
    let mut c: usize = 0;
    let mut k: usize = 0;
    while k < r.len()
        invariant
            0 <= k <= r@.len(),
            c == count_row(r@.take(k as int)),
        decreases r@.len() - k,
    {
        proof {
            lemma_count_row_step(r@, k as int);
        }
        if r[k] {
            c = c + 1;
        }
        k = k + 1;
    }
    assert(r@.take(k as int) =~= r@);
    c
}

/// The immediate dominator of every block of `f`.
pub(crate) fn immediate_dominators(f: &IRFunction, d: &Vec<Vec<bool>>) -> (iv: Vec<Option<usize>>)
    requires
        f.blocks@.len() > 0,
        rows(d@) == dom_sets(*f),
        is_dominators(*f, dom_sets(*f)),
    ensures
        iv@.len() == f.blocks@.len(),
        forall|b: int| 0 <= b < iv@.len() ==> match #[trigger] iv@[b] {
            Some(i) => i as int == idom_of(*f, b) && i < iv@.len(),
            None => idom_of(*f, b) == -1,
        },
{
    let n = d.len();
    let ghost dv = rows(d@);
    let mut sizes: Vec<usize> = Vec::new();
    let mut x: usize = 0;
    while x < n
        invariant
            0 <= x <= n,
            n == d@.len(),
            dv == rows(d@),
            sizes@.len() == x,
            forall|y: int| 0 <= y < x ==> #[trigger] sizes@[y] == count_row(dv[y]),
        decreases n - x,
    {
        sizes.push(row_count(&d[x]));
        x = x + 1;
    }
    let mut iv: Vec<Option<usize>> = Vec::new();
    let mut b: usize = 0;
    while b < n
        invariant
            0 <= b <= n,
            n == d@.len(),
            n == f.blocks@.len(),
            dv == rows(d@),
            dv == dom_sets(*f),
            is_dominators(*f, dv),
            sizes@.len() == n,
            forall|y: int| 0 <= y < n ==> #[trigger] sizes@[y] == count_row(dv[y]),
            iv@.len() == b,
            forall|c: int| 0 <= c < b ==> match #[trigger] iv@[c] {
                Some(i) => i as int == idom_of(*f, c) && i < n,
                None => idom_of(*f, c) == -1,
            },
        decreases n - b,
    {
        assert(dv[b as int] == d@[b as int]@);
        let mut best: Option<usize> = None;
        let mut x: usize = 0;
        while x < n
            invariant
                0 <= x <= n,
                0 <= b < n,
                n == d@.len(),
                dv == rows(d@),
                square(dv, n as int),
                d@[b as int]@ == dv[b as int],
                sizes@.len() == n,
                forall|y: int| 0 <= y < n ==> #[trigger] sizes@[y] == count_row(dv[y]),
                match best {
                    Some(i) => {
                        &&& i < x
                        &&& strict_dom(dv, b as int, i as int)
                        &&& forall|y: int| 0 <= y < x && #[trigger] strict_dom(dv, b as int, y) ==> count_row(dv[y]) <= count_row(dv[i as int])
                        &&& forall|y: int| 0 <= y < i && #[trigger] strict_dom(dv, b as int, y) ==> count_row(dv[y]) < count_row(dv[i as int])
                    },
                    None => forall|y: int| 0 <= y < x ==> !#[trigger] strict_dom(dv, b as int, y),
                },
            decreases n - x,
        {
            if d[b][x] && x != b {
                match best {
                    Some(i) => {
                        if sizes[x] > sizes[i] {
                            best = Some(x);
                        }
                    },
                    None => {
                        best = Some(x);
                    },
                }
            }
            x = x + 1;
        }
        proof {
            match best {
                Some(i) => {
                    assert forall|y: int| #[trigger] strict_dom(dv, b as int, y) implies count_row(dv[y]) <= count_row(dv[i as int]) by {}
                    assert(is_idom(dv, b as int, i as int));
                    assert(is_idom(dv, b as int, idom_of(*f, b as int)));
                    lemma_idom_unique(dv, b as int, i as int, idom_of(*f, b as int));
                },
                None => {
                    assert(!exists|y: int| #[trigger] strict_dom(dv, b as int, y));
                    assert(is_idom(dv, b as int, -1));
                    assert(is_idom(dv, b as int, idom_of(*f, b as int)));
                    lemma_idom_unique(dv, b as int, -1, idom_of(*f, b as int));
                },
            }
        }
        iv.push(best);
        b = b + 1;
    }
    iv
}

/// The block `k` steps up the chain of immediate dominators from block `b`
/// (-1 once the chain has ended).
pub open spec fn idom_chain(f: IRFunction, b: int, k: nat) -> int
    decreases k,
{
    if k == 0 {
        b
    } else {
        let p = idom_chain(f, b, (k - 1) as nat);
        if p >= 0 {
            idom_of(f, p)
        } else {
            -1
        }
    }
}

/// Whether block `b` is in the dominator tree below the entry: the chain of
/// its immediate dominators reaches the entry in fewer steps than there are
/// blocks.
pub open spec fn in_dom_tree(f: IRFunction, b: int) -> bool {
    exists|k: nat| k < f.blocks@.len() && #[trigger] idom_chain(f, b, k) == 0
}

/// The immediate dominators as numbers (-1 for none).
pub open spec fn idom_facts(f: IRFunction, iv: Seq<Option<usize>>) -> bool {
    &&& iv.len() == f.blocks@.len()
    &&& forall|b: int| 0 <= b < iv.len() ==> match #[trigger] iv[b] {
        Some(i) => i as int == idom_of(f, b) && i < iv.len(),
        None => idom_of(f, b) == -1,
    }
}

/// Which blocks are in the dominator tree below the entry.
fn dom_tree_members(f: &IRFunction, iv: &Vec<Option<usize>>) -> (t: Vec<bool>)
    requires
        idom_facts(*f, iv@),
    ensures
        t@.len() == f.blocks@.len(),
        forall|b: int| 0 <= b < t@.len() ==> #[trigger] t@[b] == in_dom_tree(*f, b),
{
    let n = iv.len();
    let mut t: Vec<bool> = Vec::new();
    let mut b: usize = 0;
    while b < n
        invariant
            0 <= b <= n,
            n == iv@.len(),
            idom_facts(*f, iv@),
            t@.len() == b,
            forall|c: int| 0 <= c < b ==> #[trigger] t@[c] == in_dom_tree(*f, c),
        decreases n - b,
    {
        let mut cur: Option<usize> = Some(b);
        let mut found = false;
        let mut k: usize = 0;
        while k < n && !found
            invariant
                0 <= k <= n,
                0 <= b < n,
                n == iv@.len(),
                idom_facts(*f, iv@),
                !found ==> match cur {
                    Some(c) => c as int == idom_chain(*f, b as int, k as nat) && c < n,
                    None => idom_chain(*f, b as int, k as nat) == -1,
                },
                found ==> k >= 1 && idom_chain(*f, b as int, (k - 1) as nat) == 0,
                !found ==> forall|q: nat| q < k ==> #[trigger] idom_chain(*f, b as int, q) != 0,
            decreases n - k,
        {
            match cur {
                Some(c) => {
                    if c == 0 {
                        found = true;
                    } else {
                        cur = iv[c];
                    }
                },
                None => {},
            }
            k = k + 1;
        }
        proof {
            if found {
                assert(idom_chain(*f, b as int, (k - 1) as nat) == 0);
            } else {
                assert forall|q: nat| q < n implies #[trigger] idom_chain(*f, b as int, q) != 0 by {}
            }
        }
        t.push(found);
        b = b + 1;
    }
    t
}

/// Whether `w` is in the local dominance frontier of block `n`: `n` is a
/// node and `w` a block one of its successors names that `n` does not
/// immediately dominate.
pub open spec fn df_local(f: IRFunction, n: int, w: int) -> bool {
    &&& is_node(f.block_ids(), n)
    &&& w >= 0
    &&& exists|j: int| #![trigger succ_pos(f, n)[j]] 0 <= j < succ_pos(f, n).len() && succ_pos(f, n)[j] == w
    &&& idom_of(f, w) != n
}

/// Whether `w` is in the dominance frontier of block `n`: in its local
/// frontier, or, for a block of the dominator tree below the entry, in the
/// local frontier of a block it immediately dominates and not immediately
/// dominated by `n`.
pub open spec fn in_frontier(f: IRFunction, n: int, w: int) -> bool {
    ||| df_local(f, n, w)
    ||| (in_dom_tree(f, n) && idom_of(f, w) != n && exists|c: int|
        0 <= c < f.blocks@.len() && idom_of(f, c) == n && #[trigger] df_local(f, c, w))
}

/// The local dominance frontiers of all blocks.
fn local_frontiers(f: &IRFunction, iv: &Vec<Option<usize>>) -> (lf: Vec<Vec<bool>>)
    requires
        idom_facts(*f, iv@),
    ensures
        square(rows(lf@), f.blocks@.len() as int),
        forall|n: int, w: int|
            0 <= n < f.blocks@.len() && 0 <= w < f.blocks@.len() ==> #[trigger] rows(lf@)[n][w] == df_local(*f, n, w),
{
    let n = f.blocks.len();
    let mask = node_mask(f);
    let succs = all_succ_positions(f);
    let mut lf: Vec<Vec<bool>> = Vec::new();
    let mut b: usize = 0;
    while b < n
        invariant
            0 <= b <= n,
            n == f.blocks@.len(),
            idom_facts(*f, iv@),
            mask@.len() == n,
            forall|i: int| 0 <= i < n ==> #[trigger] mask@[i] == is_node(f.block_ids(), i),
            succs@.len() == n,
            forall|c: int| 0 <= c < n ==> positions_of(#[trigger] succs@[c]@, succ_pos(*f, c)),
            lf@.len() == b,
            forall|c: int| 0 <= c < b ==> #[trigger] lf@[c]@.len() == n,
            forall|c: int, w: int| 0 <= c < b && 0 <= w < n ==> #[trigger] lf@[c]@[w] == df_local(*f, c, w),
        decreases n - b,
    {
        let mut row: Vec<bool> = Vec::new();
        let mut x: usize = 0;
        while x < n
            invariant
                0 <= x <= n,
                row@.len() == x,
                forall|y: int| 0 <= y < x ==> !#[trigger] row@[y],
            decreases n - x,
        {
            row.push(false);
            x = x + 1;
        }
        let ghost sp = succ_pos(*f, b as int);
        if mask[b] {
            let ss = &succs[b];
            let mut j: usize = 0;
            while j < ss.len()
                invariant
                    0 <= j <= ss@.len(),
                    0 <= b < n,
                    n == f.blocks@.len(),
                    idom_facts(*f, iv@),
                    is_node(f.block_ids(), b as int),
                    positions_of(ss@, sp),
                    sp == succ_pos(*f, b as int),
                    row@.len() == n,
                    forall|w: int|
                        0 <= w < n ==> #[trigger] row@[w] == (idom_of(*f, w) != b && exists|q: int|
                            #![trigger sp[q]]
                            0 <= q < j && sp[q] == w),
                decreases ss@.len() - j,
            {
                match ss[j] {
                    Some(w) => {
                        let ghost before = row@;
                        assert(w < n) by {
                            let p = block_names(f.blocks@[b as int].successors@)[j as int];
                            lemma_first_pos(f.block_ids(), p);
                        }
                        let dominated_by_b = match iv[w] {
                            Some(i) => i == b,
                            None => false,
                        };
                        if !dominated_by_b {
                            row.set(w, true);
                        }
                        proof {
                            assert forall|y: int|
                                0 <= y < n implies #[trigger] row@[y] == (idom_of(*f, y) != b && exists|q: int|
                                    #![trigger sp[q]]
                                    0 <= q < j + 1 && sp[q] == y) by {
                                if y == w {
                                    assert(sp[j as int] == y);
                                } else {
                                    if exists|q: int| #![trigger sp[q]] 0 <= q < j + 1 && sp[q] == y {
                                        let q = choose|q: int| #![trigger sp[q]] 0 <= q < j + 1 && sp[q] == y;
                                        assert(q < j);
                                    }
                                }
                            }
                        }
                    },
                    None => {
                        proof {
                            assert forall|y: int|
                                0 <= y < n implies #[trigger] row@[y] == (idom_of(*f, y) != b && exists|q: int|
                                    #![trigger sp[q]]
                                    0 <= q < j + 1 && sp[q] == y) by {
                                if exists|q: int| #![trigger sp[q]] 0 <= q < j + 1 && sp[q] == y {
                                    let q = choose|q: int| #![trigger sp[q]] 0 <= q < j + 1 && sp[q] == y;
                                    assert(q < j);
                                }
                            }
                        }
                    },
                }
                j = j + 1;
            }
            proof {
                assert forall|w: int| 0 <= w < n implies #[trigger] row@[w] == df_local(*f, b as int, w) by {
                    if exists|q: int| #![trigger sp[q]] 0 <= q < sp.len() && sp[q] == w {
                        let q = choose|q: int| #![trigger sp[q]] 0 <= q < sp.len() && sp[q] == w;
                        assert(0 <= q < j);
                    }
                }
            }
        }
        lf.push(row);
        b = b + 1;
    }
    proof {
        assert forall|c: int, w: int| 0 <= c < n && 0 <= w < n implies #[trigger] rows(lf@)[c][w] == df_local(*f, c, w) by {
            assert(rows(lf@)[c] == lf@[c]@);
        }
    }
    lf
}

/// The dominance frontier of every block of `f`, one row of bits per block.
pub(crate) fn frontiers(f: &IRFunction) -> (df: Vec<Vec<bool>>)
    requires
        f.blocks@.len() > 0,
    ensures
        square(rows(df@), f.blocks@.len() as int),
        forall|n: int, w: int|
            0 <= n < f.blocks@.len() && 0 <= w < f.blocks@.len() ==> #[trigger] rows(df@)[n][w] == in_frontier(
                *f,
                n,
                w,
            ),
{
    let n = f.blocks.len();
    let d = dominator_sets(f);
    let iv = immediate_dominators(f, &d);
    let tree = dom_tree_members(f, &iv);
    let lf = local_frontiers(f, &iv);
    let mut df: Vec<Vec<bool>> = Vec::new();
    let mut b: usize = 0;
    while b < n
        invariant
            0 <= b <= n,
            n == f.blocks@.len(),
            idom_facts(*f, iv@),
            tree@.len() == n,
            forall|c: int| 0 <= c < n ==> #[trigger] tree@[c] == in_dom_tree(*f, c),
            square(rows(lf@), n as int),
            forall|c: int, w: int| 0 <= c < n && 0 <= w < n ==> #[trigger] rows(lf@)[c][w] == df_local(*f, c, w),
            df@.len() == b,
            forall|c: int| 0 <= c < b ==> #[trigger] df@[c]@.len() == n,
            forall|c: int, w: int| 0 <= c < b && 0 <= w < n ==> #[trigger] df@[c]@[w] == in_frontier(*f, c, w),
        decreases n - b,
    {
        assert(rows(lf@)[b as int] == lf@[b as int]@);
        let mut row: Vec<bool> = Vec::new();
        let mut x: usize = 0;
        while x < n
            invariant
                0 <= x <= n,
                0 <= b < n,
                n == lf@.len(),
                lf@[b as int]@.len() == n,
                row@.len() == x,
                forall|y: int| 0 <= y < x ==> #[trigger] row@[y] == lf@[b as int]@[y],
            decreases n - x,
        {
            row.push(lf[b][x]);
            x = x + 1;
        }
        if tree[b] {
            let mut c: usize = 0;
            while c < n
                invariant
                    0 <= c <= n,
                    0 <= b < n,
                    n == f.blocks@.len(),
                    idom_facts(*f, iv@),
                    square(rows(lf@), n as int),
                    forall|c2: int, w: int|
                        0 <= c2 < n && 0 <= w < n ==> #[trigger] rows(lf@)[c2][w] == df_local(*f, c2, w),
                    row@.len() == n,
                    forall|w: int|
                        0 <= w < n ==> #[trigger] row@[w] == (df_local(*f, b as int, w) || (idom_of(*f, w) != b
                            && exists|c2: int| 0 <= c2 < c && idom_of(*f, c2) == b && #[trigger] df_local(*f, c2, w))),
                decreases n - c,
            {
                let is_child = match iv[c] {
                    Some(i) => i == b,
                    None => false,
                };
                let ghost before = row@;
                if is_child {
                    assert(rows(lf@)[c as int] == lf@[c as int]@);
                    let mut w: usize = 0;
                    while w < n
                        invariant
                            0 <= w <= n,
                            0 <= b < n,
                            0 <= c < n,
                            n == f.blocks@.len(),
                            idom_facts(*f, iv@),
                            idom_of(*f, c as int) == b,
                            lf@.len() == n,
                            lf@[c as int]@.len() == n,
                            forall|w2: int| 0 <= w2 < n ==> #[trigger] lf@[c as int]@[w2] == df_local(*f, c as int, w2),
                            row@.len() == n,
                            before.len() == n,
                            forall|w2: int|
                                0 <= w2 < w ==> #[trigger] row@[w2] == (before[w2] || (df_local(*f, c as int, w2)
                                    && idom_of(*f, w2) != b)),
                            forall|w2: int| w <= w2 < n ==> #[trigger] row@[w2] == before[w2],
                        decreases n - w,
                    {
                        let dominated_by_b = match iv[w] {
                            Some(i) => i == b,
                            None => false,
                        };
                        if lf[c][w] && !dominated_by_b {
                            row.set(w, true);
                        }
                        w = w + 1;
                    }
                }
                proof {
                    assert forall|w2: int|
                        0 <= w2 < n implies #[trigger] row@[w2] == (df_local(*f, b as int, w2) || (idom_of(*f, w2) != b
                            && exists|c2: int| 0 <= c2 < c + 1 && idom_of(*f, c2) == b && #[trigger] df_local(*f, c2, w2))) by {
                        if exists|c2: int| 0 <= c2 < c + 1 && idom_of(*f, c2) == b && #[trigger] df_local(*f, c2, w2) {
                            let c2 = choose|c2: int| 0 <= c2 < c + 1 && idom_of(*f, c2) == b && #[trigger] df_local(*f, c2, w2);
                            if c2 < c {
                                assert(exists|c3: int| 0 <= c3 < c && idom_of(*f, c3) == b && #[trigger] df_local(*f, c3, w2));
                            }
                        }
                        if is_child && df_local(*f, c as int, w2) && idom_of(*f, w2) != b {
                            assert(idom_of(*f, c as int) == b);
                        }
                    }
                }
                c = c + 1;
            }
        }
        proof {
            assert forall|w: int| 0 <= w < n implies #[trigger] row@[w] == in_frontier(*f, b as int, w) by {
                assert(rows(lf@)[b as int][w] == df_local(*f, b as int, w));
                if tree@[b as int] {
                    if exists|c2: int| 0 <= c2 < f.blocks@.len() && idom_of(*f, c2) == b && #[trigger] df_local(*f, c2, w) {
                        let c2 = choose|c2: int| 0 <= c2 < f.blocks@.len() && idom_of(*f, c2) == b && #[trigger] df_local(*f, c2, w);
                        assert(0 <= c2 < n);
                    }
                }
            }
        }
        df.push(row);
        b = b + 1;
    }
    proof {
        assert forall|c: int, w: int| 0 <= c < n && 0 <= w < n implies #[trigger] rows(df@)[c][w] == in_frontier(*f, c, w) by {
            assert(rows(df@)[c] == df@[c]@);
        }
    }
    df
}

} // verus!
