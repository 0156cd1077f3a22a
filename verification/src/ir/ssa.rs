use vstd::prelude::*;

use crate::ir::block::{BasicBlock, BasicBlockId};
use crate::ir::dominance::{count_row, frontiers, in_frontier, is_node, lemma_count_row_bound, rows, square};
use crate::ir::instruction::{IRInstruction, IRInstructionKind};
use crate::ir::module::{block_defs, lemma_push_no_duplicates, IRFunction, IRModule};
use crate::ir::renaming::{
    blocks_slots, instr_slots, instrs_slots, law_renaming_defines_each_value_once, renaming_for_function, ssa_renamed,
};
use crate::ir::value::{IRValue, IRValueId};
use crate::text::{push_str, str_equal, string_from};

verus! {

/// The names of the parameters of `f`, in order.
pub open spec fn param_names(f: IRFunction) -> Seq<Seq<char>> {
    f.parameters@.map_values(|p: IRValue| p.id.0@)
}

/// The source names that the assignments of a list of instructions keep,
/// in order.
pub open spec fn assigned_names(is: Seq<IRInstruction>) -> Seq<Seq<char>>
    decreases is.len(),
{
    if is.len() == 0 {
        Seq::empty()
    } else {
        assigned_names(is.drop_last()) + match is.last().kind {
            IRInstructionKind::Assign { original: Some(v), .. } => seq![v@],
            _ => Seq::empty(),
        }
    }
}

/// The source names assigned in the blocks of `bs` that names stand for
/// (`ids` being the names of all blocks), in order.
pub open spec fn assigned_in(bs: Seq<BasicBlock>, ids: Seq<Seq<char>>) -> Seq<Seq<char>>
    decreases bs.len(),
{
    if bs.len() == 0 {
        Seq::empty()
    } else {
        assigned_in(bs.drop_last(), ids) + if is_node(ids, bs.len() - 1) {
            assigned_names(bs.last().instructions@)
        } else {
            Seq::empty()
        }
    }
}

/// A list without its repetitions, each element kept where it first occurs.
pub open spec fn dedup(s: Seq<Seq<char>>) -> Seq<Seq<char>>
    decreases s.len(),
{
    if s.len() == 0 {
        Seq::empty()
    } else if dedup(s.drop_last()).contains(s.last()) {
        dedup(s.drop_last())
    } else {
        dedup(s.drop_last()).push(s.last())
    }
}

/// The variables of `f`: the parameters, then the source names its
/// assignments keep, each once, in order of first occurrence.
pub open spec fn ssa_vars(f: IRFunction) -> Seq<Seq<char>> {
    dedup(param_names(f) + assigned_in(f.blocks@, f.block_ids()))
}

/// Whether block `b` defines variable `v`: the entry defines the
/// parameters, and a block a name stands for defines what its assignments
/// keep.
pub open spec fn def_site(f: IRFunction, v: Seq<char>, b: int) -> bool {
    ||| (b == 0 && f.blocks@.len() > 0 && param_names(f).contains(v))
    ||| (is_node(f.block_ids(), b) && assigned_names(f.blocks@[b].instructions@).contains(v))
}

/// The blocks reached from the definitions of `v` in one to `k` steps along
/// dominance frontiers.
pub open spec fn idf_within(f: IRFunction, v: Seq<char>, k: nat) -> Set<int>
    decreases k,
{
    if k == 0 {
        Set::empty()
    } else {
        let prev = idf_within(f, v, (k - 1) as nat);
        prev.union(
            Set::new(
                |y: int|
                    0 <= y < f.blocks@.len() && exists|m: int|
                        0 <= m < f.blocks@.len() && (def_site(f, v, m) || prev.contains(m)) && #[trigger] in_frontier(
                            f,
                            m,
                            y,
                        ),
            ),
        )
    }
}

/// Whether block `y` is in the iterated dominance frontier of the
/// definitions of `v`: where `v` needs a phi node.
pub open spec fn in_idf(f: IRFunction, v: Seq<char>, y: int) -> bool {
    exists|k: nat| #[trigger] idf_within(f, v, k).contains(y)
}

/// The variables of `vars` that need a phi node in block `b`, the last
/// first.
pub open spec fn phi_vars(f: IRFunction, vars: Seq<Seq<char>>, b: int) -> Seq<Seq<char>>
    decreases vars.len(),
{
    if vars.len() == 0 {
        Seq::empty()
    } else {
        (if in_idf(f, vars.last(), b) {
            seq![vars.last()]
        } else {
            Seq::empty()
        }) + phi_vars(f, vars.drop_last(), b)
    }
}

/// Whether `i` is the phi node for variable `v` at the top of block `blk`:
/// named `%phi` and the block's name, with the incoming value `v` from each
/// predecessor of the block, in order.
pub open spec fn is_phi_for(i: IRInstruction, v: Seq<char>, blk: BasicBlock) -> bool {
    match i.kind {
        IRInstructionKind::Phi { target, incoming, original } => {
            &&& target.0@ == "%phi"@ + blk.id.0@
            &&& original matches Some(o) && o@ == v
            &&& incoming@.len() == blk.predecessors@.len()
            &&& forall|k: int|
                0 <= k < incoming@.len() ==> (#[trigger] incoming@[k]).0.0@ == v && incoming@[k].1.0@
                    == blk.predecessors@[k].0@
        },
        _ => false,
    }
}

/// Whether the instructions `is` are the phi nodes for the variables `pv`,
/// in order, followed by the instructions of block `blk`.
pub open spec fn phis_then(is: Seq<IRInstruction>, pv: Seq<Seq<char>>, blk: BasicBlock) -> bool {
    &&& is.len() == pv.len() + blk.instructions@.len()
    &&& forall|k: int| 0 <= k < pv.len() ==> is_phi_for(#[trigger] is[k], pv[k], blk)
    &&& forall|k: int| 0 <= k < blk.instructions@.len() ==> #[trigger] is[pv.len() + k] == blk.instructions@[k]
}

/// The variables of `f` and, for each, which blocks define it.
fn collect_vars(f: &IRFunction) -> (r: (Vec<String>, Vec<Vec<bool>>))
    requires
        f.blocks@.len() > 0,
    ensures
        r.0@.map_values(|s: String| s@) == ssa_vars(*f),
        r.1@.len() == r.0@.len(),
        forall|i: int| 0 <= i < r.1@.len() ==> #[trigger] r.1@[i]@.len() == f.blocks@.len(),
        forall|i: int, b: int|
            0 <= i < r.1@.len() && 0 <= b < f.blocks@.len() ==> #[trigger] r.1@[i]@[b] == def_site(*f, r.0@[i]@, b),
{
    let n = f.blocks.len();
    let ghost ids = f.block_ids();
    let ghost pn = param_names(*f);
    let mut vars: Vec<String> = Vec::new();
    let mut sites: Vec<Vec<bool>> = Vec::new();
    let mut k: usize = 0;
    while k < f.parameters.len()
        invariant
            0 <= k <= f.parameters@.len(),
            n == f.blocks@.len(),
            n > 0,
            pn == param_names(*f),
            vars@.map_values(|s: String| s@) == dedup(pn.take(k as int)),
            sites@.len() == vars@.len(),
            forall|i: int| 0 <= i < sites@.len() ==> #[trigger] sites@[i]@.len() == n,
            forall|i: int, b: int|
                0 <= i < sites@.len() && 0 <= b < n ==> #[trigger] sites@[i]@[b] == (b == 0 && pn.take(k as int).contains(
                    vars@[i]@,
                )),
        decreases f.parameters@.len() - k,
    {
        let ghost before = vars@.map_values(|s: String| s@);
        let ghost sites_before = sites@;
        let name = f.parameters[k].id.0.as_str();
        assert(pn[k as int] == name@);
        assert(pn.take(k + 1).drop_last() =~= pn.take(k as int));
        let pos = find_var(&vars, name);
        proof {
            lemma_dedup_no_duplicates(pn.take(k as int));
        }
        match pos {
            Some(i) => {
                assert(before[i as int] == name@);
                assert(pn.take(k + 1).last() == pn[k as int]);
                let mut row = sites.remove(i);
                row.set(0, true);
                let ghost new_row = row;
                sites.insert(i, row);
                assert(sites@ =~= sites_before.update(i as int, new_row));
                proof {
                    assert forall|i2: int, b: int|
                        0 <= i2 < sites@.len() && 0 <= b < n implies #[trigger] sites@[i2]@[b] == (b == 0 && pn.take(
                            k + 1,
                        ).contains(vars@[i2]@)) by {
                        lemma_take_push_contains(pn, k as int, vars@[i2]@);
                        assert(before[i2] == vars@[i2]@);
                        if i2 != i {
                            assert(before[i2] != before[i as int]);
                        }
                    }
                }
            },
            None => {
                let mut row: Vec<bool> = Vec::new();
                let mut x: usize = 0;
                while x < n
                    invariant
                        0 <= x <= n,
                        row@.len() == x,
                        forall|y: int| 0 <= y < x ==> #[trigger] row@[y] == (y == 0),
                    decreases n - x,
                {
                    row.push(x == 0);
                    x = x + 1;
                }
                vars.push(string_from(name));
                sites.push(row);
                proof {
                    assert(vars@.map_values(|s: String| s@) =~= before.push(name@));
                    assert forall|i2: int, b: int|
                        0 <= i2 < sites@.len() && 0 <= b < n implies #[trigger] sites@[i2]@[b] == (b == 0 && pn.take(
                            k + 1,
                        ).contains(vars@[i2]@)) by {
                        lemma_take_push_contains(pn, k as int, vars@[i2]@);
                        if i2 < before.len() {
                            assert(before[i2] == vars@[i2]@);
                            assert(sites@[i2] == sites_before[i2]);
                        } else {
                            assert(pn.take(k + 1)[k as int] == vars@[i2]@);
                        }
                    }
                }
            },
        }
        k = k + 1;
    }
    assert(pn.take(k as int) =~= pn);
    let ghost mentions0 = pn;
    let mut b: usize = 0;
    while b < n
        invariant
            0 <= b <= n,
            n == f.blocks@.len(),
            n > 0,
            ids == f.block_ids(),
            pn == param_names(*f),
            vars@.map_values(|s: String| s@) == dedup(pn + assigned_in(f.blocks@.take(b as int), ids)),
            sites@.len() == vars@.len(),
            forall|i: int| 0 <= i < sites@.len() ==> #[trigger] sites@[i]@.len() == n,
            forall|i: int, x: int|
                0 <= i < sites@.len() && 0 <= x < n ==> #[trigger] sites@[i]@[x] == ((x == 0 && pn.contains(vars@[i]@))
                    || (x < b && is_node(ids, x) && assigned_names(f.blocks@[x].instructions@).contains(vars@[i]@))),
        decreases n - b,
    {
        assert(f.blocks@.take(b + 1).drop_last() =~= f.blocks@.take(b as int));
        let found = f.find_block(f.blocks[b].id.0.as_str());
        assert(ids[b as int] == f.blocks@[b as int].id.0@);
        let node = match found {
            Some(i) => i == b,
            None => false,
        };
        assert(node == is_node(ids, b as int));
        if node {
            let is = &f.blocks[b].instructions;
            let ghost base = pn + assigned_in(f.blocks@.take(b as int), ids);
            let mut j: usize = 0;
            while j < is.len()
                invariant
                    0 <= j <= is@.len(),
                    0 <= b < n,
                    n == f.blocks@.len(),
                    ids == f.block_ids(),
                    is == f.blocks@[b as int].instructions,
                    is_node(ids, b as int),
                    pn == param_names(*f),
                    base == pn + assigned_in(f.blocks@.take(b as int), ids),
                    vars@.map_values(|s: String| s@) == dedup(base + assigned_names(is@.take(j as int))),
                    sites@.len() == vars@.len(),
                    forall|i: int| 0 <= i < sites@.len() ==> #[trigger] sites@[i]@.len() == n,
                    forall|i: int, x: int|
                        0 <= i < sites@.len() && 0 <= x < n ==> #[trigger] sites@[i]@[x] == ((x == 0 && pn.contains(
                            vars@[i]@,
                        )) || (x < b && is_node(ids, x) && assigned_names(f.blocks@[x].instructions@).contains(vars@[i]@))
                            || (x == b && assigned_names(is@.take(j as int)).contains(vars@[i]@))),
                decreases is@.len() - j,
            {
                assert(is@.take(j + 1).drop_last() =~= is@.take(j as int));
                match &is[j].kind {
                    IRInstructionKind::Assign { original: Some(v), .. } => {
                        let ghost before = vars@.map_values(|s: String| s@);
                        let ghost sites_before = sites@;
                        let ghost an = assigned_names(is@.take(j as int));
                        assert(assigned_names(is@.take(j + 1)) == an.push(v@));
                        assert(base + an.push(v@) =~= (base + an).push(v@));
                        let pos = find_var(&vars, v.as_str());
                        proof {
                            lemma_dedup_no_duplicates(base + an);
                            assert((base + an).push(v@).drop_last() =~= base + an);
                        }
                        match pos {
                            Some(i) => {
                                assert(before[i as int] == v@);
                                let mut row = sites.remove(i);
                                row.set(b, true);
                                let ghost new_row = row;
                                sites.insert(i, row);
                                assert(sites@ =~= sites_before.update(i as int, new_row));
                                proof {
                                    assert forall|i2: int, x: int|
                                        0 <= i2 < sites@.len() && 0 <= x < n implies #[trigger] sites@[i2]@[x] == ((x
                                            == 0 && pn.contains(vars@[i2]@)) || (x < b && is_node(ids, x)
                                            && assigned_names(f.blocks@[x].instructions@).contains(vars@[i2]@)) || (x
                                            == b && an.push(v@).contains(vars@[i2]@))) by {
                                        lemma_push_contains(an, v@, vars@[i2]@);
                                        assert(before[i2] == vars@[i2]@);
                                        if i2 != i {
                                            assert(before[i2] != before[i as int]);
                                        }
                                    }
                                }
                            },
                            None => {
                                let mut row: Vec<bool> = Vec::new();
                                let mut x: usize = 0;
                                while x < n
                                    invariant
                                        0 <= x <= n,
                                        row@.len() == x,
                                        forall|y: int| 0 <= y < x ==> #[trigger] row@[y] == (y == b),
                                    decreases n - x,
                                {
                                    row.push(x == b);
                                    x = x + 1;
                                }
                                vars.push(string_from(v.as_str()));
                                sites.push(row);
                                proof {
                                    assert(vars@.map_values(|s: String| s@) =~= before.push(v@));
                                    assert(!before.contains(v@));
                                    assert forall|i2: int, x: int|
                                        0 <= i2 < sites@.len() && 0 <= x < n implies #[trigger] sites@[i2]@[x] == ((x
                                            == 0 && pn.contains(vars@[i2]@)) || (x < b && is_node(ids, x)
                                            && assigned_names(f.blocks@[x].instructions@).contains(vars@[i2]@)) || (x
                                            == b && an.push(v@).contains(vars@[i2]@))) by {
                                        lemma_push_contains(an, v@, vars@[i2]@);
                                        if i2 < before.len() {
                                            assert(before[i2] == vars@[i2]@);
                                            assert(sites@[i2] == sites_before[i2]);
                                        } else {
                                            assert(vars@[i2]@ == v@);
                                            lemma_dedup_contains(base + an, v@);
                                            if base.contains(v@) {
                                                let q = choose|q: int| 0 <= q < base.len() && base[q] == v@;
                                                assert((base + an)[q] == v@);
                                            }
                                            if an.contains(v@) {
                                                let q = choose|q: int| 0 <= q < an.len() && an[q] == v@;
                                                assert((base + an)[base.len() + q] == v@);
                                            }
                                            lemma_dedup_contains(pn + assigned_in(f.blocks@.take(b as int), ids), v@);
                                            lemma_not_assigned_before(*f, ids, b as int, v@, pn);
                                        }
                                    }
                                }
                            },
                        }
                    },
                    _ => {
                        proof {
                            let an = assigned_names(is@.take(j as int));
                            assert(assigned_names(is@.take(j + 1)) =~= an);
                            assert(base + an =~= base + assigned_names(is@.take(j + 1)));
                        }
                    },
                }
                j = j + 1;
            }
            proof {
                assert(is@.take(j as int) =~= is@);
                assert(assigned_in(f.blocks@.take(b + 1), ids) == assigned_in(f.blocks@.take(b as int), ids)
                    + assigned_names(is@));
                assert(base + assigned_names(is@) =~= pn + assigned_in(f.blocks@.take(b + 1), ids));
            }
        } else {
            proof {
                assert(assigned_in(f.blocks@.take(b + 1), ids) =~= assigned_in(f.blocks@.take(b as int), ids));
            }
        }
        b = b + 1;
    }
    proof {
        assert(f.blocks@.take(b as int) =~= f.blocks@);
        assert forall|i: int, x: int|
            0 <= i < sites@.len() && 0 <= x < n implies #[trigger] sites@[i]@[x] == def_site(*f, vars@[i]@, x) by {}
    }
    (vars, sites)
}

/// The position of `name` in `vars`, if it is there.
fn find_var(vars: &Vec<String>, name: &str) -> (r: Option<usize>)
    ensures
        match r {
            Some(i) => i < vars@.len() && vars@[i as int]@ == name@,
            None => !vars@.map_values(|s: String| s@).contains(name@),
        },
{
    let mut i: usize = 0;
    while i < vars.len()
        invariant
            0 <= i <= vars@.len(),
            forall|q: int| 0 <= q < i ==> vars@[q]@ != name@,
        decreases vars@.len() - i,
    {
        if str_equal(vars[i].as_str(), name) {
            return Some(i);
        }
        i = i + 1;
    }
    proof {
        let vs = vars@.map_values(|s: String| s@);
        if vs.contains(name@) {
            let q = choose|q: int| 0 <= q < vs.len() && #[trigger] vs[q] == name@;
            assert(vars@[q]@ == name@);
        }
    }
    None
}

proof fn lemma_take_push_contains(s: Seq<Seq<char>>, k: int, x: Seq<char>)
    requires
        0 <= k < s.len(),
    ensures
        s.take(k + 1).contains(x) == (s.take(k).contains(x) || s[k] == x),
{
    assert(s.take(k + 1) =~= s.take(k).push(s[k]));
    lemma_push_contains(s.take(k), s[k], x);
}

proof fn lemma_push_contains(s: Seq<Seq<char>>, v: Seq<char>, x: Seq<char>)
    ensures
        s.push(v).contains(x) == (s.contains(x) || v == x),
{
    if s.push(v).contains(x) && v != x {
        let q = choose|q: int| 0 <= q < s.push(v).len() && s.push(v)[q] == x;
        assert(s[q] == x);
    }
    if s.contains(x) {
        let q = choose|q: int| 0 <= q < s.len() && s[q] == x;
        assert(s.push(v)[q] == x);
    }
    if v == x {
        assert(s.push(v)[s.len() as int] == x);
    }
}

/// The list without repetitions has the same members.
proof fn lemma_dedup_contains(s: Seq<Seq<char>>, x: Seq<char>)
    ensures
        dedup(s).contains(x) == s.contains(x),
    decreases s.len(),
{
    if s.len() > 0 {
        lemma_dedup_contains(s.drop_last(), x);
        assert(s =~= s.drop_last().push(s.last()));
        lemma_push_contains(s.drop_last(), s.last(), x);
        lemma_push_contains(dedup(s.drop_last()), s.last(), x);
    }
}

/// The list without repetitions has none.
proof fn lemma_dedup_no_duplicates(s: Seq<Seq<char>>)
    ensures
        dedup(s).no_duplicates(),
    decreases s.len(),
{
    if s.len() > 0 {
        lemma_dedup_no_duplicates(s.drop_last());
        if !dedup(s.drop_last()).contains(s.last()) {
            lemma_push_no_duplicates(dedup(s.drop_last()), s.last());
        }
    }
}

/// A name the variables do not have yet is not assigned in an earlier block.
proof fn lemma_not_assigned_before(f: IRFunction, ids: Seq<Seq<char>>, b: int, v: Seq<char>, pn: Seq<Seq<char>>)
    requires
        0 <= b <= f.blocks@.len(),
        ids == f.block_ids(),
        !(pn + assigned_in(f.blocks@.take(b), ids)).contains(v),
    ensures
        !pn.contains(v),
        forall|x: int| 0 <= x < b && is_node(ids, x) ==> !assigned_names(f.blocks@[x].instructions@).contains(v),
    decreases b,
{
    if pn.contains(v) {
        let q = choose|q: int| 0 <= q < pn.len() && pn[q] == v;
        assert((pn + assigned_in(f.blocks@.take(b), ids))[q] == v);
    }
    if b > 0 {
        let a0 = assigned_in(f.blocks@.take(b - 1), ids);
        assert(f.blocks@.take(b).drop_last() =~= f.blocks@.take(b - 1));
        let last = if is_node(ids, b - 1) {
            assigned_names(f.blocks@[b - 1].instructions@)
        } else {
            Seq::empty()
        };
        assert(assigned_in(f.blocks@.take(b), ids) == a0 + last);
        assert(pn + assigned_in(f.blocks@.take(b), ids) =~= (pn + a0) + last);
        if (pn + a0).contains(v) {
            let q = choose|q: int| 0 <= q < (pn + a0).len() && (pn + a0)[q] == v;
            assert(((pn + a0) + last)[q] == v);
        }
        lemma_not_assigned_before(f, ids, b - 1, v, pn);
        if last.contains(v) {
            let q = choose|q: int| 0 <= q < last.len() && last[q] == v;
            assert(((pn + a0) + last)[(pn + a0).len() + q] == v);
        }
    }
}

proof fn lemma_idf_step(f: IRFunction, v: Seq<char>, m: int, y: int, k: nat)
    requires
        0 <= m < f.blocks@.len(),
        0 <= y < f.blocks@.len(),
        def_site(f, v, m) || idf_within(f, v, k).contains(m),
        in_frontier(f, m, y),
    ensures
        idf_within(f, v, k + 1).contains(y),
{
    let prev = idf_within(f, v, k);
    assert(idf_within(f, v, k + 1) == prev.union(
        Set::new(
            |y2: int|
                0 <= y2 < f.blocks@.len() && exists|m2: int|
                    0 <= m2 < f.blocks@.len() && (def_site(f, v, m2) || prev.contains(m2)) && #[trigger] in_frontier(
                        f,
                        m2,
                        y2,
                    ),
        ),
    ));
}

proof fn lemma_idf_complete(f: IRFunction, v: Seq<char>, h: Seq<bool>, site: Seq<bool>, df: Seq<Seq<bool>>, k: nat)
    requires
        h.len() == f.blocks@.len(),
        site.len() == f.blocks@.len(),
        square(df, f.blocks@.len() as int),
        forall|b: int| 0 <= b < site.len() ==> #[trigger] site[b] == def_site(f, v, b),
        forall|m: int, y: int|
            0 <= m < f.blocks@.len() && 0 <= y < f.blocks@.len() ==> #[trigger] df[m][y] == in_frontier(f, m, y),
        forall|m: int, y: int|
            0 <= m < h.len() && 0 <= y < h.len() && (site[m] || h[m]) && #[trigger] df[m][y] ==> h[y],
    ensures
        forall|y: int| #[trigger] idf_within(f, v, k).contains(y) ==> 0 <= y < h.len() && h[y],
    decreases k,
{
    if k > 0 {
        lemma_idf_complete(f, v, h, site, df, (k - 1) as nat);
        let prev = idf_within(f, v, (k - 1) as nat);
        assert forall|y: int| #[trigger] idf_within(f, v, k).contains(y) implies 0 <= y < h.len() && h[y] by {
            if !prev.contains(y) {
                let m = choose|m: int|
                    0 <= m < f.blocks@.len() && (def_site(f, v, m) || prev.contains(m)) && #[trigger] in_frontier(
                        f,
                        m,
                        y,
                    );
                assert(df[m][y]);
            }
        }
    }
}

/// The blocks where variable `v` needs a phi node, from the dominance
/// frontiers `df` of `f` and the blocks `site` that define `v`: a work list
/// of blocks, starting from the definitions, each adding the blocks of its
/// frontier not yet marked.
fn idf_mask(f: &IRFunction, df: &Vec<Vec<bool>>, site: &Vec<bool>, Ghost(v): Ghost<Seq<char>>) -> (h: Vec<bool>)
    requires
        f.blocks@.len() > 0,
        square(rows(df@), f.blocks@.len() as int),
        forall|m: int, y: int|
            0 <= m < f.blocks@.len() && 0 <= y < f.blocks@.len() ==> #[trigger] rows(df@)[m][y] == in_frontier(*f, m, y),
        site@.len() == f.blocks@.len(),
        forall|b: int| 0 <= b < site@.len() ==> #[trigger] site@[b] == def_site(*f, v, b),
    ensures
        h@.len() == f.blocks@.len(),
        forall|y: int| 0 <= y < h@.len() ==> #[trigger] h@[y] == in_idf(*f, v, y),
{
    let n = f.blocks.len();
    let ghost dv = rows(df@);
    let mut h: Vec<bool> = Vec::new();
    let mut work: Vec<usize> = Vec::new();
    let mut x: usize = 0;
    while x < n
        invariant
            0 <= x <= n,
            n == site@.len(),
            h@.len() == x,
            forall|y: int| 0 <= y < x ==> !#[trigger] h@[y],
            forall|q: int| 0 <= q < work@.len() ==> #[trigger] work@[q] < n && site@[work@[q] as int],
            forall|m: int| 0 <= m < x && #[trigger] site@[m] ==> work@.contains(m as usize),
        decreases n - x,
    {
        let ghost w0 = work@;
        h.push(false);
        if site[x] {
            work.push(x);
            assert(work@[work@.len() - 1] == x);
        }
        proof {
            assert forall|m: int| 0 <= m < x + 1 && #[trigger] site@[m] implies work@.contains(m as usize) by {
                if m < x {
                    let q = choose|q: int| 0 <= q < w0.len() && w0[q] == m as usize;
                    assert(work@[q] == m as usize);
                } else {
                    assert(work@[work@.len() - 1] == x);
                }
            }
        }
        x = x + 1;
    }
    proof {
        lemma_count_row_zero(h@);
    }
    while work.len() > 0
        invariant
            n == f.blocks@.len(),
            n == site@.len(),
            dv == rows(df@),
            square(dv, n as int),
            forall|m: int, y: int| 0 <= m < n && 0 <= y < n ==> #[trigger] dv[m][y] == in_frontier(*f, m, y),
            forall|b: int| 0 <= b < n ==> #[trigger] site@[b] == def_site(*f, v, b),
            h@.len() == n,
            forall|q: int| 0 <= q < work@.len() ==> #[trigger] work@[q] < n && (site@[work@[q] as int] || h@[work@[q] as int]),
            forall|y: int| 0 <= y < n && #[trigger] h@[y] ==> in_idf(*f, v, y),
            forall|m: int|
                0 <= m < n && (site@[m] || h@[m]) ==> work@.contains(m as usize) || forall|y: int|
                    0 <= y < n && #[trigger] dv[m][y] ==> h@[y],
            count_row(h@) <= n,
        decreases 2 * (n - count_row(h@)) + work@.len(),
    {
        let ghost work0 = work@;
        assert(forall|m2: int|
            0 <= m2 < n && (site@[m2] || h@[m2]) ==> work0.contains(m2 as usize) || forall|y: int|
                0 <= y < n && #[trigger] dv[m2][y] ==> h@[y]);
        let m = work.pop().unwrap();
        let ghost work1 = work@;
        let ghost h0 = h@;
        assert(work0 =~= work1.push(m));
        assert(dv[m as int] == df@[m as int]@);
        let mut y: usize = 0;
        while y < n
            invariant
                0 <= y <= n,
                m < n,
                n == f.blocks@.len(),
                n == site@.len(),
                dv == rows(df@),
                square(dv, n as int),
                df@[m as int]@ == dv[m as int],
                forall|m2: int, y2: int| 0 <= m2 < n && 0 <= y2 < n ==> #[trigger] dv[m2][y2] == in_frontier(*f, m2, y2),
                forall|b: int| 0 <= b < n ==> #[trigger] site@[b] == def_site(*f, v, b),
                site@[m as int] || h0[m as int],
                h@.len() == n,
                h0.len() == n,
                forall|y2: int| 0 <= y2 < n && h0[y2] ==> #[trigger] h@[y2],
                forall|y2: int| 0 <= y2 < y && #[trigger] dv[m as int][y2] ==> h@[y2],
                forall|q: int| 0 <= q < work@.len() ==> #[trigger] work@[q] < n && (site@[work@[q] as int] || h@[work@[q] as int]),
                work1.len() <= work@.len(),
                forall|q: int| 0 <= q < work1.len() ==> #[trigger] work@[q] == work1[q],
                forall|y2: int| 0 <= y2 < n && #[trigger] h@[y2] ==> in_idf(*f, v, y2),
                forall|m2: int|
                    0 <= m2 < n && (site@[m2] || h@[m2]) && !(site@[m2] || h0[m2]) ==> work@.contains(m2 as usize),
                count_row(h0) <= count_row(h@),
                count_row(h@) <= n,
                2 * (n - count_row(h@)) + work@.len() <= 2 * (n - count_row(h0)) + work1.len(),
            decreases n - y,
        {
            if df[m][y] && !h[y] {
                proof {
                    assert(in_frontier(*f, m as int, y as int));
                    if site@[m as int] {
                        lemma_idf_step(*f, v, m as int, y as int, 0);
                    } else {
                        assert(h0[m as int]);
                        assert(h@[m as int]);
                        assert(in_idf(*f, v, m as int));
                        let k = choose|k: nat| #[trigger] idf_within(*f, v, k).contains(m as int);
                        lemma_idf_step(*f, v, m as int, y as int, k);
                    }
                    lemma_count_row_set(h@, y as int);
                    lemma_count_row_bound(h@.update(y as int, true));
                }
                let ghost wb = work@;
                let ghost hb = h@;
                h.set(y, true);
                if !site[y] {
                    work.push(y);
                    assert(work@[work@.len() - 1] == y);
                }
                proof {
                    assert forall|m2: int|
                        0 <= m2 < n && (site@[m2] || h@[m2]) && !(site@[m2] || h0[m2]) implies work@.contains(
                            m2 as usize,
                        ) by {
                        if m2 != y {
                            assert(hb[m2]);
                            let q = choose|q: int| 0 <= q < wb.len() && wb[q] == m2 as usize;
                            assert(work@[q] == m2 as usize);
                        }
                    }
                }
            }
            y = y + 1;
        }
        proof {
            assert forall|m2: int|
                0 <= m2 < n && (site@[m2] || h@[m2]) implies work@.contains(m2 as usize) || forall|y2: int|
                    0 <= y2 < n && #[trigger] dv[m2][y2] ==> h@[y2] by {
                if m2 != m && (site@[m2] || h0[m2]) {
                    if work0.contains(m2 as usize) {
                        let q = choose|q: int| 0 <= q < work0.len() && work0[q] == m2 as usize;
                        assert(q < work1.len());
                        assert(work@[q] == m2 as usize);
                    } else {
                        assert forall|y2: int| 0 <= y2 < n && #[trigger] dv[m2][y2] implies h@[y2] by {
                            assert(h0[y2]);
                        }
                    }
                }
            }
        }
    }
    proof {
        lemma_idf_complete_from(*f, v, h@, site@, dv);
    }
    h
}

proof fn lemma_idf_complete_from(f: IRFunction, v: Seq<char>, h: Seq<bool>, site: Seq<bool>, df: Seq<Seq<bool>>)
    requires
        h.len() == f.blocks@.len(),
        site.len() == f.blocks@.len(),
        square(df, f.blocks@.len() as int),
        forall|b: int| 0 <= b < site.len() ==> #[trigger] site[b] == def_site(f, v, b),
        forall|m: int, y: int|
            0 <= m < f.blocks@.len() && 0 <= y < f.blocks@.len() ==> #[trigger] df[m][y] == in_frontier(f, m, y),
        forall|m: int|
            0 <= m < h.len() && (site[m] || h[m]) ==> forall|y: int| 0 <= y < h.len() && #[trigger] df[m][y] ==> h[y],
        forall|y: int| 0 <= y < h.len() && #[trigger] h[y] ==> in_idf(f, v, y),
    ensures
        forall|y: int| 0 <= y < h.len() ==> #[trigger] h[y] == in_idf(f, v, y),
{
    assert forall|y: int| 0 <= y < h.len() implies #[trigger] h[y] == in_idf(f, v, y) by {
        if in_idf(f, v, y) {
            let k = choose|k: nat| #[trigger] idf_within(f, v, k).contains(y);
            assert forall|m: int, y2: int|
                0 <= m < h.len() && 0 <= y2 < h.len() && (site[m] || h[m]) && #[trigger] df[m][y2] implies h[y2] by {}
            lemma_idf_complete(f, v, h, site, df, k);
        }
    }
}

proof fn lemma_count_row_zero(r: Seq<bool>)
    requires
        forall|y: int| 0 <= y < r.len() ==> !#[trigger] r[y],
    ensures
        count_row(r) == 0,
    decreases r.len(),
{
    if r.len() > 0 {
        lemma_count_row_zero(r.drop_last());
    }
}

proof fn lemma_count_row_set(r: Seq<bool>, y: int)
    requires
        0 <= y < r.len(),
        !r[y],
    ensures
        count_row(r.update(y, true)) == count_row(r) + 1,
    decreases r.len(),
{
    let u = r.update(y, true);
    if y == r.len() - 1 {
        assert(u.drop_last() =~= r.drop_last());
    } else {
        lemma_count_row_set(r.drop_last(), y);
        assert(u.drop_last() =~= r.drop_last().update(y, true));
    }
}

/// Whether `f1` is `f0` with its phi nodes placed: each variable has one at
/// the top of every block of the iterated dominance frontier of the blocks
/// that define it, the latest variable first; nothing else changes.
pub open spec fn phis_placed(f0: IRFunction, f1: IRFunction) -> bool {
    &&& f1.name == f0.name
    &&& f1.parameters == f0.parameters
    &&& f1.return_type == f0.return_type
    &&& f1.blocks@.len() == f0.blocks@.len()
    &&& forall|b: int|
        0 <= b < f0.blocks@.len() ==> {
            let nb = #[trigger] f1.blocks@[b];
            let ob = f0.blocks@[b];
            &&& nb.id == ob.id
            &&& nb.predecessors == ob.predecessors
            &&& nb.successors == ob.successors
            &&& phis_then(nb.instructions@, phi_vars(f0, ssa_vars(f0), b), ob)
        }
}

/// The phi node for variable `v` at the top of block `blk`.
fn make_phi(blk: &BasicBlock, v: &str) -> (i: IRInstruction)
    ensures
        is_phi_for(i, v@, *blk),
{
    let mut target = string_from("%phi");
    push_str(&mut target, blk.id.0.as_str());
    let mut incoming: Vec<(IRValueId, BasicBlockId)> = Vec::new();
    let mut k: usize = 0;
    while k < blk.predecessors.len()
        invariant
            0 <= k <= blk.predecessors@.len(),
            incoming@.len() == k,
            forall|q: int|
                0 <= q < k ==> (#[trigger] incoming@[q]).0.0@ == v@ && incoming@[q].1.0@ == blk.predecessors@[q].0@,
        decreases blk.predecessors@.len() - k,
    {
        incoming.push((IRValueId::new(string_from(v)), blk.predecessors[k].clone()));
        k = k + 1;
    }
    IRInstruction::new(IRInstructionKind::Phi { target: IRValueId::new(target), incoming, original: Some(string_from(v)) })
}

proof fn lemma_phi_vars_step(f: IRFunction, vars: Seq<Seq<char>>, i: int, b: int)
    requires
        0 <= i < vars.len(),
    ensures
        phi_vars(f, vars.take(i + 1), b) == (if in_idf(f, vars[i], b) {
            seq![vars[i]]
        } else {
            Seq::empty()
        }) + phi_vars(f, vars.take(i), b),
{
    assert(vars.take(i + 1).drop_last() =~= vars.take(i));
}

/// Places the phi nodes of `f`: each variable gets one at the top of every
/// block of the iterated dominance frontier of the blocks that define it,
/// the latest variable first.
pub(crate) fn place_phi_nodes(f: &mut IRFunction)
    ensures
        phis_placed(*old(f), *final(f)),
{
    let ghost f0 = *f;
    if f.blocks.len() == 0 {
        return;
    }
    let n = f.blocks.len();
    let df = frontiers(f);
    let (vars, sites) = collect_vars(f);
    let ghost vs = vars@.map_values(|s: String| s@);
    let mut masks: Vec<Vec<bool>> = Vec::new();
    let mut i: usize = 0;
    while i < vars.len()
        invariant
            0 <= i <= vars@.len(),
            *f == f0,
            n == f.blocks@.len(),
            n > 0,
            vs == vars@.map_values(|s: String| s@),
            square(rows(df@), n as int),
            forall|m: int, y: int| 0 <= m < n && 0 <= y < n ==> #[trigger] rows(df@)[m][y] == in_frontier(f0, m, y),
            sites@.len() == vars@.len(),
            forall|q: int| 0 <= q < sites@.len() ==> #[trigger] sites@[q]@.len() == n,
            forall|q: int, b: int| 0 <= q < sites@.len() && 0 <= b < n ==> #[trigger] sites@[q]@[b] == def_site(f0, vars@[q]@, b),
            masks@.len() == i,
            forall|q: int| 0 <= q < i ==> #[trigger] masks@[q]@.len() == n,
            forall|q: int, y: int| 0 <= q < i && 0 <= y < n ==> #[trigger] masks@[q]@[y] == in_idf(f0, vs[q], y),
        decreases vars@.len() - i,
    {
        let h = idf_mask(f, &df, &sites[i], Ghost(vars@[i as int]@));
        masks.push(h);
        i = i + 1;
    }
    let mut i: usize = 0;
    while i < vars.len()
        invariant
            0 <= i <= vars@.len(),
            n == f0.blocks@.len(),
            vs == vars@.map_values(|s: String| s@),
            vs == ssa_vars(f0),
            masks@.len() == vars@.len(),
            forall|q: int| 0 <= q < masks@.len() ==> #[trigger] masks@[q]@.len() == n,
            forall|q: int, y: int| 0 <= q < masks@.len() && 0 <= y < n ==> #[trigger] masks@[q]@[y] == in_idf(f0, vs[q], y),
            f.name == f0.name,
            f.parameters == f0.parameters,
            f.return_type == f0.return_type,
            f.blocks@.len() == n,
            forall|b: int|
                0 <= b < n ==> {
                    let nb = #[trigger] f.blocks@[b];
                    let ob = f0.blocks@[b];
                    &&& nb.id == ob.id
                    &&& nb.predecessors == ob.predecessors
                    &&& nb.successors == ob.successors
                    &&& phis_then(nb.instructions@, phi_vars(f0, vs.take(i as int), b), ob)
                },
        decreases vars@.len() - i,
    {
        let mut y: usize = 0;
        while y < n
            invariant
                0 <= y <= n,
                0 <= i < vars@.len(),
                n == f0.blocks@.len(),
                vs == vars@.map_values(|s: String| s@),
                masks@.len() == vars@.len(),
                masks@[i as int]@.len() == n,
                forall|y2: int| 0 <= y2 < n ==> #[trigger] masks@[i as int]@[y2] == in_idf(f0, vs[i as int], y2),
                f.name == f0.name,
                f.parameters == f0.parameters,
                f.return_type == f0.return_type,
                f.blocks@.len() == n,
                forall|b: int|
                    0 <= b < n ==> {
                        let nb = #[trigger] f.blocks@[b];
                        let ob = f0.blocks@[b];
                        &&& nb.id == ob.id
                        &&& nb.predecessors == ob.predecessors
                        &&& nb.successors == ob.successors
                        &&& phis_then(
                            nb.instructions@,
                            if b < y {
                                phi_vars(f0, vs.take(i + 1), b)
                            } else {
                                phi_vars(f0, vs.take(i as int), b)
                            },
                            ob,
                        )
                    },
            decreases n - y,
        {
            proof {
                lemma_phi_vars_step(f0, vs, i as int, y as int);
            }
            if masks[i][y] {
                let ghost before = f.blocks@;
                let mut blk = f.blocks.remove(y);
                let phi = make_phi(&blk, vars[i].as_str());
                let ghost cur = blk.instructions@;
                blk.instructions.insert(0, phi);
                proof {
                    let ob = f0.blocks@[y as int];
                    let pv = phi_vars(f0, vs.take(i as int), y as int);
                    let pv2 = phi_vars(f0, vs.take(i + 1), y as int);
                    assert(pv2 =~= seq![vs[i as int]] + pv);
                    assert(vars@[i as int]@ == vs[i as int]);
                    assert forall|k: int| 0 <= k < pv2.len() implies is_phi_for(#[trigger] blk.instructions@[k], pv2[k], ob) by {
                        if k > 0 {
                            assert(blk.instructions@[k] == cur[k - 1]);
                        }
                    }
                    assert forall|k: int| 0 <= k < ob.instructions@.len() implies #[trigger] blk.instructions@[pv2.len() + k]
                        == ob.instructions@[k] by {
                        assert(blk.instructions@[pv2.len() + k] == cur[pv.len() + k]);
                    }
                }
                f.blocks.insert(y, blk);
                proof {
                    assert forall|b: int| 0 <= b < n && b != y implies #[trigger] f.blocks@[b] == before[b] by {}
                }
            } else {
                proof {
                    assert(phi_vars(f0, vs.take(i + 1), y as int) =~= phi_vars(f0, vs.take(i as int), y as int));
                }
            }
            y = y + 1;
        }
        i = i + 1;
    }
    proof {
        assert(vs.take(i as int) =~= vs);
    }
}

/// The number of places (values read and defined) that the phi nodes
/// placed in the first `k` blocks of `f` hold: each reads one value per
/// predecessor of its block and defines one.
pub open spec fn phi_places(f: IRFunction, k: nat) -> nat
    decreases k,
{
    if k == 0 {
        0
    } else {
        let b = (k - 1) as int;
        phi_places(f, (k - 1) as nat) + phi_vars(f, ssa_vars(f), b).len() * (f.blocks@[b].predecessors@.len() + 1)
    }
}

proof fn lemma_instrs_slots_concat(a: Seq<IRInstruction>, b: Seq<IRInstruction>)
    ensures
        instrs_slots(a + b) == instrs_slots(a) + instrs_slots(b),
    decreases b.len(),
{
    if b.len() == 0 {
        assert(a + b =~= a);
        assert(instrs_slots(a) + instrs_slots(b) =~= instrs_slots(a));
    } else {
        lemma_instrs_slots_concat(a, b.drop_last());
        assert((a + b).drop_last() =~= a + b.drop_last());
        assert(instrs_slots(a + b) =~= instrs_slots(a) + instrs_slots(b));
    }
}

proof fn lemma_phi_slots(is: Seq<IRInstruction>, pv: Seq<Seq<char>>, blk: BasicBlock, q: int)
    requires
        phis_then(is, pv, blk),
        0 <= q <= pv.len(),
    ensures
        instrs_slots(is.take(q)).len() == q * (blk.predecessors@.len() + 1),
    decreases q,
{
    let p = blk.predecessors@.len();
    if q > 0 {
        lemma_phi_slots(is, pv, blk, q - 1);
        assert(is.take(q).drop_last() =~= is.take(q - 1));
        assert(is_phi_for(is[q - 1], pv[q - 1], blk));
        assert(instr_slots(is[q - 1].kind).len() == p + 1);
        assert(q * (p + 1) == (q - 1) * (p + 1) + (p + 1)) by (nonlinear_arith);
    } else {
        assert(is.take(0) =~= Seq::<IRInstruction>::empty());
    }
}

proof fn lemma_placed_slots(f0: IRFunction, f1: IRFunction, k: int)
    requires
        phis_placed(f0, f1),
        0 <= k <= f0.blocks@.len(),
    ensures
        blocks_slots(f1.blocks@.take(k)).len() == blocks_slots(f0.blocks@.take(k)).len() + phi_places(f0, k as nat),
    decreases k,
{
    if k > 0 {
        lemma_placed_slots(f0, f1, k - 1);
        assert(f1.blocks@.take(k).drop_last() =~= f1.blocks@.take(k - 1));
        assert(f0.blocks@.take(k).drop_last() =~= f0.blocks@.take(k - 1));
        let b = k - 1;
        let nb = f1.blocks@[b];
        let ob = f0.blocks@[b];
        let pv = phi_vars(f0, ssa_vars(f0), b);
        assert(phis_then(nb.instructions@, pv, ob));
        lemma_phi_slots(nb.instructions@, pv, ob, pv.len() as int);
        assert forall|q: int| 0 <= q < nb.instructions@.len() implies nb.instructions@[q] == (nb.instructions@.take(
            pv.len() as int,
        ) + ob.instructions@)[q] by {
            if q >= pv.len() {
                let q2 = q - pv.len();
                assert(nb.instructions@[pv.len() + q2] == ob.instructions@[q2]);
            }
        }
        assert(nb.instructions@ =~= nb.instructions@.take(pv.len() as int) + ob.instructions@);
        lemma_instrs_slots_concat(nb.instructions@.take(pv.len() as int), ob.instructions@);
    } else {
        assert(f1.blocks@.take(0) =~= Seq::<BasicBlock>::empty());
        assert(f0.blocks@.take(0) =~= Seq::<BasicBlock>::empty());
    }
}

/// Whether `f1` is `f0` in single-assignment form: its phi nodes placed,
/// then its values renamed.
pub open spec fn ssa_form_of(f0: IRFunction, f1: IRFunction) -> bool {
    exists|placed: IRFunction| phis_placed(f0, placed) && ssa_renamed(placed, f1)
}

/// Whether `f` has fewer places, with its phi nodes, than `usize::MAX`.
pub open spec fn ssa_fits(f: IRFunction) -> bool {
    blocks_slots(f.blocks@).len() + phi_places(f, f.blocks@.len() as nat) < usize::MAX
}

/// Places the phi nodes of `f`, then renames its values.
fn function_to_ssa(f: &mut IRFunction)
    requires
        ssa_fits(*old(f)),
    ensures
        ssa_form_of(*old(f), *final(f)),
        block_defs(final(f).blocks@).no_duplicates(),
{
    let ghost f0 = *f;
    place_phi_nodes(f);
    let ghost placed = *f;
    proof {
        lemma_placed_slots(f0, placed, f0.blocks@.len() as int);
        assert(f0.blocks@.take(f0.blocks@.len() as int) =~= f0.blocks@);
        assert(placed.blocks@.take(placed.blocks@.len() as int) =~= placed.blocks@);
    }
    renaming_for_function(f);
    assert(phis_placed(f0, placed) && ssa_renamed(placed, *f));
    proof {
        law_renaming_defines_each_value_once(placed, *f);
    }
}

/// Puts every function of `module` into single-assignment form: places its
/// phi nodes, then renames its values.
pub fn run_ssa_renaming(module: &mut IRModule)
    requires
        forall|i: int| 0 <= i < old(module).functions@.len() ==> ssa_fits(#[trigger] old(module).functions@[i]),
    ensures
        final(module).name == old(module).name,
        final(module).functions@.len() == old(module).functions@.len(),
        forall|i: int|
            0 <= i < old(module).functions@.len() ==> ssa_form_of(
                old(module).functions@[i],
                #[trigger] final(module).functions@[i],
            ),
        forall|i: int|
            0 <= i < final(module).functions@.len() ==> block_defs(
                (#[trigger] final(module).functions@[i]).blocks@,
            ).no_duplicates(),
{
    let ghost fs0 = module.functions@;
    let mut functions: Vec<IRFunction> = Vec::new();
    std::mem::swap(&mut functions, &mut module.functions);
    let mut done: Vec<IRFunction> = Vec::new();
    while functions.len() > 0
        invariant
            done@.len() + functions@.len() == fs0.len(),
            functions@ == fs0.skip(done@.len() as int),
            forall|i: int| 0 <= i < fs0.len() ==> ssa_fits(#[trigger] fs0[i]),
            forall|i: int| 0 <= i < done@.len() ==> ssa_form_of(fs0[i], #[trigger] done@[i]),
            forall|i: int| 0 <= i < done@.len() ==> block_defs((#[trigger] done@[i]).blocks@).no_duplicates(),
        decreases functions@.len(),
    {
        let ghost i = done@.len() as int;
        let mut function = functions.remove(0);
        assert(fs0[i] == function);
        function_to_ssa(&mut function);
        let ghost done_before = done@;
        done.push(function);
        proof {
            assert forall|q: int| 0 <= q < done@.len() implies ssa_form_of(fs0[q], #[trigger] done@[q]) by {
                if q < i {
                    assert(done@[q] == done_before[q]);
                }
            }
            assert forall|q: int| 0 <= q < done@.len() implies block_defs((#[trigger] done@[q]).blocks@).no_duplicates() by {
                if q < i {
                    assert(done@[q] == done_before[q]);
                }
            }
            assert(functions@ =~= fs0.skip(done@.len() as int));
        }
    }
    module.functions = done;
}

} // verus!
