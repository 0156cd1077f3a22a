use vstd::prelude::*;

use crate::ir::block::{block_names, BasicBlock, BasicBlockId};
use crate::ir::instruction::{defined_value, is_terminator_kind, used_values_of, IRInstruction, IRInstructionKind};
use crate::ir::value::{IRValue, IRValueId};
use crate::text::{contains_str, push_str, str_equal, string_from, strs};

verus! {

/// A function of the intermediate representation: its blocks, the first
/// being the entry.
#[derive(Debug)]
pub struct IRFunction {
    pub name: String,
    pub parameters: Vec<IRValue>,
    pub return_type: Option<String>,
    pub blocks: Vec<BasicBlock>,
}

/// The values the instructions of a list define, in order.
pub open spec fn instr_defs(is: Seq<IRInstruction>) -> Seq<Seq<char>>
    decreases is.len(),
{
    if is.len() == 0 {
        Seq::empty()
    } else {
        instr_defs(is.drop_last()) + match defined_value(is.last().kind) {
            Some(v) => seq![v],
            None => Seq::empty(),
        }
    }
}

/// The values the blocks of a list define, in order.
pub open spec fn block_defs(bs: Seq<BasicBlock>) -> Seq<Seq<char>>
    decreases bs.len(),
{
    if bs.len() == 0 {
        Seq::empty()
    } else {
        block_defs(bs.drop_last()) + instr_defs(bs.last().instructions@)
    }
}

/// A phi node must have incoming values.
pub open spec fn phi_ok(k: IRInstructionKind) -> bool {
    match k {
        IRInstructionKind::Phi { incoming, .. } => incoming@.len() > 0,
        _ => true,
    }
}

/// A block has instructions, each phi node has incoming values, and the last
/// instruction ends the block.
pub open spec fn block_shape_ok(b: BasicBlock) -> bool {
    &&& b.instructions@.len() > 0
    &&& forall|i: int| 0 <= i < b.instructions@.len() ==> phi_ok(#[trigger] b.instructions@[i].kind)
    &&& is_terminator_kind(b.instructions@.last().kind)
}

/// The first index of `id` in `names`, or -1.
pub open spec fn first_pos(names: Seq<Seq<char>>, id: Seq<char>) -> int
    decreases names.len(),
{
    if names.len() == 0 {
        -1
    } else if names[0] == id {
        0
    } else {
        let r = first_pos(names.drop_first(), id);
        if r < 0 {
            -1
        } else {
            r + 1
        }
    }
}

pub proof fn lemma_first_pos(names: Seq<Seq<char>>, id: Seq<char>)
    ensures
        -1 <= first_pos(names, id) < names.len(),
        first_pos(names, id) >= 0 ==> names[first_pos(names, id)] == id,
        first_pos(names, id) >= 0 ==> forall|j: int| 0 <= j < first_pos(names, id) ==> names[j] != id,
        first_pos(names, id) < 0 ==> forall|j: int| 0 <= j < names.len() ==> names[j] != id,
    decreases names.len(),
{
    if names.len() > 0 {
        lemma_first_pos(names.drop_first(), id);
        assert forall|j: int| 0 < j < names.len() implies names[j] == names.drop_first()[j - 1] by {}
    }
}

impl IRFunction {
    /// The names of the blocks, in order.
    pub open spec fn block_ids(&self) -> Seq<Seq<char>> {
        self.blocks@.map_values(|b: BasicBlock| b.id.0@)
    }

    /// The blocks explored from the block `from` names, in at most `k` steps:
    /// a name is explored at its first block, whose successors are explored next.
    pub open spec fn explored(&self, from: Seq<char>, k: nat) -> Set<int>
        decreases k,
    {
        if k == 0 {
            if first_pos(self.block_ids(), from) >= 0 {
                set![first_pos(self.block_ids(), from)]
            } else {
                Set::empty()
            }
        } else {
            let prev = self.explored(from, (k - 1) as nat);
            prev.union(
                Set::new(
                    |m: int|
                        exists|j: int, t: int|
                            prev.contains(j) && 0 <= j < self.blocks@.len() && 0 <= t < block_names(
                                self.blocks@[j].successors@,
                            ).len() && m == first_pos(self.block_ids(), block_names(self.blocks@[j].successors@)[t])
                                && m >= 0,
                ),
            )
        }
    }

    /// Whether control can go from the block named `from` to the block named
    /// `to`: they are the same name, or `to` is a successor of a block
    /// explored from `from` within as many steps as there are blocks.
    pub open spec fn reaches_spec(&self, from: Seq<char>, to: Seq<char>) -> bool {
        from == to || exists|j: int|
            #![trigger self.explored(from, self.blocks@.len() as nat).contains(j)]
            self.explored(from, self.blocks@.len() as nat).contains(j) && 0 <= j < self.blocks@.len()
                && block_names(self.blocks@[j].successors@).contains(to)
    }

    /// The name of the block that defines value `v` (the last such).
    pub open spec fn def_block(&self, v: Seq<char>) -> Seq<char> {
        def_block_in(self.blocks@, v)
    }

    /// Every block has the right shape and no value is defined twice.
    pub open spec fn shape_ok(&self) -> bool {
        &&& self.blocks@.len() > 0
        &&& forall|b: int| 0 <= b < self.blocks@.len() ==> block_shape_ok(#[trigger] self.blocks@[b])
        &&& block_defs(self.blocks@).no_duplicates()
    }

    /// The uses of instruction `i` of block `b` are sound: a phi node's
    /// incoming blocks are predecessors of `b`, and each value read is defined
    /// in `b` or in a block from which `b` can be reached.
    pub open spec fn uses_ok(&self, b: int, i: int) -> bool {
        let blk = self.blocks@[b];
        let instr = blk.instructions@[i];
        &&& match instr.kind {
            IRInstructionKind::Phi { incoming, .. } => forall|p: int|
                0 <= p < incoming@.len() ==> block_names(blk.predecessors@).contains(#[trigger] incoming@[p].1.0@),
            _ => true,
        }
        &&& forall|u: int|
            0 <= u < used_values_of(instr.kind).len() ==> {
                let v = #[trigger] used_values_of(instr.kind)[u];
                &&& block_defs(self.blocks@).contains(v)
                &&& (self.def_block(v) == blk.id.0@ || self.reaches_spec(self.def_block(v), blk.id.0@))
            }
    }

    /// Whether the function passes `validate`.
    pub open spec fn valid(&self) -> bool {
        &&& self.shape_ok()
        &&& forall|b: int, i: int|
            0 <= b < self.blocks@.len() && 0 <= i < self.blocks@[b].instructions@.len() ==> #[trigger] self.uses_ok(b, i)
    }
}

/// The name of the block of `bs` that defines `v` (the last such), or the
/// empty name.
pub open spec fn def_block_in(bs: Seq<BasicBlock>, v: Seq<char>) -> Seq<char>
    decreases bs.len(),
{
    if bs.len() == 0 {
        Seq::empty()
    } else if instr_defs(bs.last().instructions@).contains(v) {
        bs.last().id.0@
    } else {
        def_block_in(bs.drop_last(), v)
    }
}

/// Adding one more element keeps a list free of duplicates exactly when the
/// element is new.
pub proof fn lemma_push_no_duplicates(s: Seq<Seq<char>>, x: Seq<char>)
    ensures
        s.push(x).no_duplicates() <==> (s.no_duplicates() && !s.contains(x)),
{
    let t = s.push(x);
    if t.no_duplicates() {
        assert forall|i: int, j: int| 0 <= i < s.len() && 0 <= j < s.len() && i != j implies s[i] != s[j] by {
            assert(t[i] == s[i] && t[j] == s[j]);
        }
        if s.contains(x) {
            let k = choose|k: int| 0 <= k < s.len() && s[k] == x;
            assert(t[k] == t[s.len() as int]);
        }
    }
    if s.no_duplicates() && !s.contains(x) {
        assert forall|i: int, j: int| 0 <= i < t.len() && 0 <= j < t.len() && i != j implies t[i] != t[j] by {
            if i < s.len() && j < s.len() {
                assert(t[i] == s[i] && t[j] == s[j]);
            } else if i < s.len() {
                assert(t[i] == s[i]);
            } else {
                assert(t[j] == s[j]);
            }
        }
    }
}

pub proof fn lemma_no_duplicates_prefix(s: Seq<Seq<char>>, u: Seq<Seq<char>>)
    requires
        (s + u).no_duplicates(),
    ensures
        s.no_duplicates(),
{
    assert forall|i: int, j: int| 0 <= i < s.len() && 0 <= j < s.len() && i != j implies s[i] != s[j] by {
        assert((s + u)[i] == s[i] && (s + u)[j] == s[j]);
    }
}

impl IRFunction {
    /// A function with no parameters, return type nor blocks.
    pub fn new(name: String) -> (f: IRFunction)
        ensures
            f.name@ == name@,
            f.parameters@.len() == 0,
            f.return_type is None,
            f.blocks@.len() == 0,
    {
        IRFunction { name, parameters: Vec::new(), return_type: None, blocks: Vec::new() }
    }

    pub fn add_block(&mut self, block: BasicBlock)
        ensures
            final(self).blocks@ == old(self).blocks@.push(block),
            final(self).name == old(self).name,
            final(self).parameters == old(self).parameters,
            final(self).return_type == old(self).return_type,
    {
        self.blocks.push(block);
    }

    pub fn entry_block(&self) -> (r: Option<&BasicBlock>)
        ensures
            match r {
                Some(b) => self.blocks@.len() > 0 && *b == self.blocks@[0],
                None => self.blocks@.len() == 0,
            },
    {
        if self.blocks.len() > 0 {
            Some(&self.blocks[0])
        } else {
            None
        }
    }

    pub(crate) fn find_block(&self, id: &str) -> (r: Option<usize>)
        ensures
            match r {
                Some(i) => i as int == first_pos(self.block_ids(), id@) && i < self.blocks@.len(),
                None => first_pos(self.block_ids(), id@) == -1,
            },
    {
        let ghost ns = self.block_ids();
        proof {
            lemma_first_pos(ns, id@);
        }
        let mut i: usize = 0;
        while i < self.blocks.len()
            invariant
                0 <= i <= ns.len(),
                ns == self.block_ids(),
                ns.len() == self.blocks@.len(),
                -1 <= first_pos(ns, id@) < ns.len(),
                first_pos(ns, id@) >= 0 ==> ns[first_pos(ns, id@)] == id@,
                first_pos(ns, id@) >= 0 ==> forall|j: int| 0 <= j < first_pos(ns, id@) ==> ns[j] != id@,
                first_pos(ns, id@) < 0 ==> forall|j: int| 0 <= j < ns.len() ==> ns[j] != id@,
                forall|j: int| 0 <= j < i ==> ns[j] != id@,
            decreases ns.len() - i,
        {
            if str_equal(self.blocks[i].id.0.as_str(), id) {
                assert(ns[i as int] == id@);
                return Some(i);
            }
            i = i + 1;
        }
        None
    }

    /// The first block named `id`.
    pub fn block(&self, id: &BasicBlockId) -> (r: Option<&BasicBlock>)
        ensures
            match r {
                Some(b) => first_pos(self.block_ids(), id.0@) >= 0 && *b == self.blocks@[first_pos(
                    self.block_ids(),
                    id.0@,
                )],
                None => first_pos(self.block_ids(), id.0@) == -1,
            },
    {
        match self.find_block(id.0.as_str()) {
            Some(i) => Some(&self.blocks[i]),
            None => None,
        }
    }

    pub fn block_count(&self) -> (r: usize)
        ensures
            r == self.blocks@.len(),
    {
        self.blocks.len()
    }

    /// One step of exploration: `next` gets every block that a successor of
    /// a block marked in `cur` names (at its first block).
    fn explore_step(&self, cur: &Vec<bool>) -> (next: Vec<bool>)
        requires
            cur@.len() == self.blocks@.len(),
        ensures
            next@.len() == self.blocks@.len(),
            forall|m: int|
                0 <= m < next@.len() ==> (#[trigger] next@[m] <==> (cur@[m] || exists|j: int, t: int|
                    cur@[j] && 0 <= j < self.blocks@.len() && 0 <= t < block_names(self.blocks@[j].successors@).len()
                        && m == first_pos(self.block_ids(), block_names(self.blocks@[j].successors@)[t]))),
    {
        let n = self.blocks.len();
        let mut next: Vec<bool> = Vec::new();
        let mut k: usize = 0;
        while k < n
            invariant
                n == self.blocks@.len(),
                cur@.len() == n,
                0 <= k <= n,
                next@.len() == k,
                forall|m: int| 0 <= m < k ==> next@[m] == cur@[m],
            decreases n - k,
        {
            next.push(cur[k]);
            k = k + 1;
        }
        let mut j: usize = 0;
        while j < n
            invariant
                n == self.blocks@.len(),
                cur@.len() == n,
                next@.len() == n,
                0 <= j <= n,
                forall|m: int|
                    0 <= m < n ==> (#[trigger] next@[m] <==> (cur@[m] || exists|jj: int, t: int|
                        cur@[jj] && 0 <= jj < j && 0 <= t < block_names(self.blocks@[jj].successors@).len() && m
                            == first_pos(self.block_ids(), block_names(self.blocks@[jj].successors@)[t]))),
            decreases n - j,
        {
            if cur[j] {
                let succs = &self.blocks[j].successors;
                let mut t: usize = 0;
                while t < succs.len()
                    invariant
                        n == self.blocks@.len(),
                        cur@.len() == n,
                        next@.len() == n,
                        0 <= j < n,
                        cur@[j as int],
                        succs@ == self.blocks@[j as int].successors@,
                        0 <= t <= succs@.len(),
                        forall|m: int|
                            0 <= m < n ==> (#[trigger] next@[m] <==> (cur@[m] || (exists|jj: int, tt: int|
                                cur@[jj] && 0 <= jj < j && 0 <= tt < block_names(self.blocks@[jj].successors@).len()
                                    && m == first_pos(self.block_ids(), block_names(self.blocks@[jj].successors@)[tt]))
                                || (exists|tt: int|
                                0 <= tt < t && m == first_pos(self.block_ids(), block_names(succs@)[tt])))),
                    decreases succs@.len() - t,
                {
                    let target = self.find_block(succs[t].0.as_str());
                    assert(block_names(succs@)[t as int] == succs@[t as int].0@);
                    match target {
                        Some(m) => {
                            let ghost before = next@;
                            next.set(m, true);
                            assert forall|mm: int|
                                0 <= mm < n implies (#[trigger] next@[mm] <==> (cur@[mm] || (exists|jj: int, tt: int|
                                    cur@[jj] && 0 <= jj < j && 0 <= tt < block_names(
                                        self.blocks@[jj].successors@,
                                    ).len() && mm == first_pos(
                                        self.block_ids(),
                                        block_names(self.blocks@[jj].successors@)[tt],
                                    )) || (exists|tt: int|
                                    0 <= tt < t + 1 && mm == first_pos(self.block_ids(), block_names(succs@)[tt])))) by {
                                if mm == m {
                                    assert(mm == first_pos(self.block_ids(), block_names(succs@)[t as int]));
                                } else {
                                    assert(next@[mm] == before[mm]);
                                    if exists|tt: int|
                                        0 <= tt < t + 1 && mm == first_pos(self.block_ids(), block_names(succs@)[tt]) {
                                        let tt = choose|tt: int|
                                            0 <= tt < t + 1 && mm == first_pos(self.block_ids(), block_names(succs@)[tt]);
                                        assert(tt < t);
                                    }
                                }
                            }
                        },
                        None => {
                            assert forall|mm: int|
                                0 <= mm < n implies (#[trigger] next@[mm] <==> (cur@[mm] || (exists|jj: int, tt: int|
                                    cur@[jj] && 0 <= jj < j && 0 <= tt < block_names(
                                        self.blocks@[jj].successors@,
                                    ).len() && mm == first_pos(
                                        self.block_ids(),
                                        block_names(self.blocks@[jj].successors@)[tt],
                                    )) || (exists|tt: int|
                                    0 <= tt < t + 1 && mm == first_pos(self.block_ids(), block_names(succs@)[tt])))) by {
                                if exists|tt: int|
                                    0 <= tt < t + 1 && mm == first_pos(self.block_ids(), block_names(succs@)[tt]) {
                                    let tt = choose|tt: int|
                                        0 <= tt < t + 1 && mm == first_pos(self.block_ids(), block_names(succs@)[tt]);
                                    if tt == t {
                                        assert(first_pos(self.block_ids(), block_names(succs@)[t as int]) == -1);
                                    }
                                }
                            }
                        },
                    }
                    t = t + 1;
                }
                assert forall|m: int|
                    0 <= m < n implies (#[trigger] next@[m] <==> (cur@[m] || exists|jj: int, tt: int|
                        cur@[jj] && 0 <= jj < j + 1 && 0 <= tt < block_names(self.blocks@[jj].successors@).len() && m
                            == first_pos(self.block_ids(), block_names(self.blocks@[jj].successors@)[tt]))) by {
                    if exists|jj: int, tt: int|
                        cur@[jj] && 0 <= jj < j + 1 && 0 <= tt < block_names(self.blocks@[jj].successors@).len() && m
                            == first_pos(self.block_ids(), block_names(self.blocks@[jj].successors@)[tt]) {
                        let (jj, tt) = choose|jj: int, tt: int|
                            cur@[jj] && 0 <= jj < j + 1 && 0 <= tt < block_names(self.blocks@[jj].successors@).len()
                                && m == first_pos(self.block_ids(), block_names(self.blocks@[jj].successors@)[tt]);
                        if jj == j {
                            assert(0 <= tt < block_names(succs@).len() && m == first_pos(
                                self.block_ids(),
                                block_names(succs@)[tt],
                            ));
                        }
                    }
                }
            } else {
                assert forall|m: int|
                    0 <= m < n implies (#[trigger] next@[m] <==> (cur@[m] || exists|jj: int, tt: int|
                        cur@[jj] && 0 <= jj < j + 1 && 0 <= tt < block_names(self.blocks@[jj].successors@).len() && m
                            == first_pos(self.block_ids(), block_names(self.blocks@[jj].successors@)[tt]))) by {
                    if exists|jj: int, tt: int|
                        cur@[jj] && 0 <= jj < j + 1 && 0 <= tt < block_names(self.blocks@[jj].successors@).len() && m
                            == first_pos(self.block_ids(), block_names(self.blocks@[jj].successors@)[tt]) {
                        let (jj, tt) = choose|jj: int, tt: int|
                            cur@[jj] && 0 <= jj < j + 1 && 0 <= tt < block_names(self.blocks@[jj].successors@).len()
                                && m == first_pos(self.block_ids(), block_names(self.blocks@[jj].successors@)[tt]);
                        assert(jj != j);
                    }
                }
            }
            j = j + 1;
        }
        next
    }

    proof fn lemma_explored_in_range(&self, from: Seq<char>, k: nat)
        ensures
            forall|m: int| self.explored(from, k).contains(m) ==> 0 <= m < self.blocks@.len(),
        decreases k,
    {
        lemma_first_pos(self.block_ids(), from);
        if k > 0 {
            self.lemma_explored_in_range(from, (k - 1) as nat);
            assert forall|m: int| self.explored(from, k).contains(m) implies 0 <= m < self.blocks@.len() by {
                if !self.explored(from, (k - 1) as nat).contains(m) {
                    let (j, t) = choose|j: int, t: int|
                        self.explored(from, (k - 1) as nat).contains(j) && 0 <= j < self.blocks@.len() && 0 <= t
                            < block_names(self.blocks@[j].successors@).len() && m == first_pos(
                            self.block_ids(),
                            block_names(self.blocks@[j].successors@)[t],
                        ) && m >= 0;
                    lemma_first_pos(self.block_ids(), block_names(self.blocks@[j].successors@)[t]);
                }
            }
        }
    }

    /// Whether control can go from block `from` to block `to` (see `reaches_spec`).
    fn reaches(&self, from: &BasicBlockId, to: &BasicBlockId) -> (r: bool)
        ensures
            r == self.reaches_spec(from.0@, to.0@),
    {
        if str_equal(from.0.as_str(), to.0.as_str()) {
            return true;
        }
        let n = self.blocks.len();
        let mut cur: Vec<bool> = Vec::new();
        let start = self.find_block(from.0.as_str());
        let mut k: usize = 0;
        while k < n
            invariant
                n == self.blocks@.len(),
                0 <= k <= n,
                cur@.len() == k,
                match start {
                    Some(s) => s as int == first_pos(self.block_ids(), from.0@) && s < n,
                    None => first_pos(self.block_ids(), from.0@) == -1,
                },
                forall|m: int| 0 <= m < k ==> (cur@[m] <==> self.explored(from.0@, 0).contains(m)),
            decreases n - k,
        {
            let is_start = match start {
                Some(s) => s == k,
                None => false,
            };
            cur.push(is_start);
            k = k + 1;
        }
        let mut round: usize = 0;
        while round < n
            invariant
                n == self.blocks@.len(),
                0 <= round <= n,
                cur@.len() == n,
                forall|m: int| 0 <= m < n ==> (cur@[m] <==> self.explored(from.0@, round as nat).contains(m)),
            decreases n - round,
        {
            let next = self.explore_step(&cur);
            proof {
                self.lemma_explored_in_range(from.0@, round as nat);
                self.lemma_explored_in_range(from.0@, (round + 1) as nat);
                let prev = self.explored(from.0@, round as nat);
                assert forall|m: int| 0 <= m < n implies (next@[m] <==> self.explored(
                    from.0@,
                    (round + 1) as nat,
                ).contains(m)) by {
                    if next@[m] && !cur@[m] {
                        let (j, t) = choose|j: int, t: int|
                            cur@[j] && 0 <= j < self.blocks@.len() && 0 <= t < block_names(
                                self.blocks@[j].successors@,
                            ).len() && m == first_pos(self.block_ids(), block_names(self.blocks@[j].successors@)[t]);
                        assert(prev.contains(j));
                    }
                    if self.explored(from.0@, (round + 1) as nat).contains(m) && !prev.contains(m) {
                        let (j, t) = choose|j: int, t: int|
                            prev.contains(j) && 0 <= j < self.blocks@.len() && 0 <= t < block_names(
                                self.blocks@[j].successors@,
                            ).len() && m == first_pos(self.block_ids(), block_names(self.blocks@[j].successors@)[t])
                                && m >= 0;
                        assert(cur@[j]);
                    }
                }
            }
            cur = next;
            round = round + 1;
        }
        proof {
            self.lemma_explored_in_range(from.0@, n as nat);
        }
        let mut j: usize = 0;
        while j < n
            invariant
                n == self.blocks@.len(),
                0 <= j <= n,
                cur@.len() == n,
                from.0@ != to.0@,
                forall|m: int| 0 <= m < n ==> (cur@[m] <==> self.explored(from.0@, n as nat).contains(m)),
                forall|m: int| self.explored(from.0@, n as nat).contains(m) ==> 0 <= m < n,
                forall|m: int|
                    0 <= m < j ==> !(self.explored(from.0@, n as nat).contains(m) && block_names(
                        self.blocks@[m].successors@,
                    ).contains(to.0@)),
            decreases n - j,
        {
            if cur[j] && contains_block_name(&self.blocks[j].successors, to.0.as_str()) {
                assert(self.explored(from.0@, self.blocks@.len() as nat).contains(j as int));
                return true;
            }
            j = j + 1;
        }
        false
    }
}

/// Whether a list of block identifiers names `name`.
fn contains_block_name(ids: &Vec<BasicBlockId>, name: &str) -> (r: bool)
    ensures
        r == block_names(ids@).contains(name@),
{
    let ghost l = block_names(ids@);
    let mut k: usize = 0;
    while k < ids.len()
        invariant
            0 <= k <= ids@.len(),
            l == block_names(ids@),
            forall|j: int| 0 <= j < k ==> l[j] != name@,
        decreases ids@.len() - k,
    {
        if str_equal(ids[k].0.as_str(), name) {
            assert(l[k as int] == name@);
            return true;
        }
        k = k + 1;
    }
    false
}


/// `Function 'NAME'` followed by `rest`.
fn function_message(name: &str, middle: &str, detail: &str, end: &str) -> (r: String)
    ensures
        r@ == "Function '"@ + name@ + middle@ + detail@ + end@,
{
    let mut r = string_from("Function '");
    push_str(&mut r, name);
    push_str(&mut r, middle);
    push_str(&mut r, detail);
    push_str(&mut r, end);
    r
}

/// `Block 'BLOCK' in function 'NAME'` followed by `rest`.
fn block_message(block: &str, name: &str, rest: &str) -> (r: String)
    ensures
        r@ == "Block '"@ + block@ + "' in function '"@ + name@ + rest@,
{
    let mut r = string_from("Block '");
    push_str(&mut r, block);
    push_str(&mut r, "' in function '");
    push_str(&mut r, name);
    push_str(&mut r, rest);
    r
}

/// `Function 'NAME' block 'BLOCK': ` followed by the parts of the detail.
fn use_message(name: &str, block: &str, a: &str, b: &str, c: &str, d: &str, e: &str) -> (r: String)
    ensures
        r@ == "Function '"@ + name@ + "' block '"@ + block@ + "': "@ + a@ + b@ + c@ + d@ + e@,
{
    let mut r = string_from("Function '");
    push_str(&mut r, name);
    push_str(&mut r, "' block '");
    push_str(&mut r, block);
    push_str(&mut r, "': ");
    push_str(&mut r, a);
    push_str(&mut r, b);
    push_str(&mut r, c);
    push_str(&mut r, d);
    push_str(&mut r, e);
    r
}

/// Whether an instruction of the list defines `v`.
fn instructions_define(is: &Vec<IRInstruction>, v: &str) -> (r: bool)
    ensures
        r == instr_defs(is@).contains(v@),
{
    let mut k: usize = 0;
    while k < is.len()
        invariant
            0 <= k <= is@.len(),
            !instr_defs(is@.take(k as int)).contains(v@),
        decreases is@.len() - k,
    {
        let ghost prefix = instr_defs(is@.take(k as int));
        assert(is@.take(k + 1).drop_last() =~= is@.take(k as int));
        assert(is@.take(k + 1).last() == is@[k as int]);
        match is[k].defines_value() {
            Some(t) => {
                if str_equal(t.0.as_str(), v) {
                    assert(instr_defs(is@.take(k + 1)) == prefix + seq![t.0@]);
                    assert(instr_defs(is@.take(k + 1))[prefix.len() as int] == v@);
                    proof {
                        lemma_instr_defs_prefix(is@, k + 1);
                    }
                    return true;
                }
                assert(instr_defs(is@.take(k + 1)) == prefix + seq![t.0@]);
                assert(!(prefix + seq![t.0@]).contains(v@)) by {
                    if (prefix + seq![t.0@]).contains(v@) {
                        let w = choose|w: int| 0 <= w < prefix.len() + 1 && (prefix + seq![t.0@])[w] == v@;
                        if w < prefix.len() {
                            assert(prefix[w] == v@);
                        }
                    }
                }
            },
            None => {
                assert(instr_defs(is@.take(k + 1)) =~= prefix);
            },
        }
        k = k + 1;
    }
    assert(is@.take(k as int) =~= is@);
    false
}

/// The definitions of a prefix of a list are a prefix of its definitions.
proof fn lemma_instr_defs_prefix(is: Seq<IRInstruction>, k: int)
    requires
        0 <= k <= is.len(),
    ensures
        forall|x: Seq<char>| instr_defs(is.take(k)).contains(x) ==> #[trigger] instr_defs(is).contains(x),
    decreases is.len() - k,
{
    if k < is.len() {
        lemma_instr_defs_prefix(is, k + 1);
        assert(is.take(k + 1).drop_last() =~= is.take(k));
        assert forall|x: Seq<char>| instr_defs(is.take(k)).contains(x) implies #[trigger] instr_defs(is).contains(x) by {
            let a = instr_defs(is.take(k));
            let w = choose|w: int| 0 <= w < a.len() && a[w] == x;
            assert(instr_defs(is.take(k + 1))[w] == x);
        }
    } else {
        assert(is.take(k) =~= is);
    }
}

impl IRFunction {
    /// Checks the shape of one block, given the values defined before it;
    /// adds the values it defines that are new.
    fn check_block_shape(&self, b: &BasicBlock, defined: &mut Vec<String>, errors: &mut Vec<String>)
        requires
            strs(old(defined)@).no_duplicates(),
        ensures
            strs(final(defined)@).no_duplicates(),
            final(errors)@.len() >= old(errors)@.len(),
            (final(errors)@.len() == old(errors)@.len()) <==> (block_shape_ok(*b) && (strs(old(defined)@)
                + instr_defs(b.instructions@)).no_duplicates()),
            final(errors)@.len() == old(errors)@.len() ==> strs(final(defined)@) == strs(old(defined)@) + instr_defs(
                b.instructions@,
            ),
    {
        let start = errors.len();
        let ghost d0 = strs(defined@);
        if b.instructions.len() == 0 {
            errors.push(block_message(b.id.0.as_str(), self.name.as_str(), "' has no instructions."));
        }
        let mut k: usize = 0;
        assert(b.instructions@.take(0) =~= Seq::<IRInstruction>::empty());
        assert(d0 + instr_defs(b.instructions@.take(0)) =~= d0);
        while k < b.instructions.len()
            invariant
                0 <= k <= b.instructions@.len(),
                start <= errors@.len(),
                strs(defined@).no_duplicates(),
                (errors@.len() == start) <==> (b.instructions@.len() > 0 && (forall|i: int|
                    0 <= i < k ==> phi_ok(#[trigger] b.instructions@[i].kind)) && (d0 + instr_defs(
                    b.instructions@.take(k as int),
                )).no_duplicates()),
                errors@.len() == start ==> strs(defined@) == d0 + instr_defs(b.instructions@.take(k as int)),
            decreases b.instructions@.len() - k,
        {
            let instr = &b.instructions[k];
            let ghost before_errors = errors@.len();
            let ghost before_defined = strs(defined@);
            assert(b.instructions@.take(k + 1).drop_last() =~= b.instructions@.take(k as int));
            assert(b.instructions@.take(k + 1).last() == b.instructions@[k as int]);
            let ghost prefix = d0 + instr_defs(b.instructions@.take(k as int));
            match instr.defines_value() {
                Some(t) => {
                    assert(instr_defs(b.instructions@.take(k + 1)) == instr_defs(b.instructions@.take(k as int)) + seq![t.0@]);
                    assert(d0 + instr_defs(b.instructions@.take(k + 1)) =~= prefix.push(t.0@));
                    proof {
                        lemma_push_no_duplicates(prefix, t.0@);
                        lemma_push_no_duplicates(before_defined, t.0@);
                    }
                    if contains_str(defined, t.0.as_str()) {
                        errors.push(function_message(self.name.as_str(), "' defines SSA value '", t.0.as_str(), "' more than once."));
                    } else {
                        defined.push(t.0.clone());
                        assert(strs(defined@) =~= before_defined.push(t.0@));
                    }
                },
                None => {
                    assert(instr_defs(b.instructions@.take(k + 1)) =~= instr_defs(b.instructions@.take(k as int)));
                },
            }
            match &instr.kind {
                IRInstructionKind::Phi { target, incoming, .. } => {
                    if incoming.len() == 0 {
                        errors.push(use_message(
                            self.name.as_str(),
                            b.id.0.as_str(),
                            "phi node for '",
                            target.0.as_str(),
                            "' has no incoming values",
                            "",
                            "",
                        ));
                    }
                },
                _ => {},
            }
            k = k + 1;
        }
        assert(b.instructions@.take(k as int) =~= b.instructions@);
        if b.instructions.len() > 0 {
            let last = &b.instructions[b.instructions.len() - 1];
            if !last.is_terminator() {
                errors.push(block_message(b.id.0.as_str(), self.name.as_str(), "' does not end with a terminator."));
            }
        }
    }

    /// The index of the block that defines `v` (the last such).
    fn find_def_block(&self, v: &str) -> (r: Option<usize>)
        ensures
            match r {
                Some(j) => j < self.blocks@.len() && block_defs(self.blocks@).contains(v@)
                    && self.blocks@[j as int].id.0@ == self.def_block(v@),
                None => !block_defs(self.blocks@).contains(v@),
            },
    {
        let ghost bs = self.blocks@;
        let mut j = self.blocks.len();
        assert(bs.take(j as int) =~= bs);
        while j > 0
            invariant
                0 <= j <= bs.len(),
                bs == self.blocks@,
                def_block_in(bs, v@) == def_block_in(bs.take(j as int), v@),
                block_defs(bs).contains(v@) == block_defs(bs.take(j as int)).contains(v@),
            decreases j,
        {
            let ghost t = bs.take(j as int);
            assert(t.drop_last() =~= bs.take(j - 1));
            assert(t.last() == bs[j - 1]);
            proof {
                lemma_concat_contains(block_defs(t.drop_last()), instr_defs(t.last().instructions@), v@);
            }
            if instructions_define(&self.blocks[j - 1].instructions, v) {
                return Some(j - 1);
            }
            j = j - 1;
        }
        assert(block_defs(bs.take(0)) =~= Seq::<Seq<char>>::empty());
        None
    }

    /// Checks the uses of the instructions of block `bi`.
    fn check_block_uses(&self, bi: usize, errors: &mut Vec<String>)
        requires
            bi < self.blocks@.len(),
        ensures
            final(errors)@.len() >= old(errors)@.len(),
            (final(errors)@.len() == old(errors)@.len()) <==> (forall|i: int|
                0 <= i < self.blocks@[bi as int].instructions@.len() ==> #[trigger] self.uses_ok(bi as int, i)),
    {
        let b = &self.blocks[bi];
        let start = errors.len();
        let mut k: usize = 0;
        while k < b.instructions.len()
            invariant
                bi < self.blocks@.len(),
                *b == self.blocks@[bi as int],
                0 <= k <= b.instructions@.len(),
                start <= errors@.len(),
                (errors@.len() == start) <==> (forall|i: int| 0 <= i < k ==> #[trigger] self.uses_ok(bi as int, i)),
            decreases b.instructions@.len() - k,
        {
            let ghost e0 = errors@.len();
            let instr = &b.instructions[k];
            let mut phi_ok_so_far = true;
            match &instr.kind {
                IRInstructionKind::Phi { incoming, .. } => {
                    let mut p: usize = 0;
                    while p < incoming.len()
                        invariant
                            0 <= p <= incoming@.len(),
                            e0 <= errors@.len(),
                            (errors@.len() == e0) <==> (forall|q: int|
                                0 <= q < p ==> block_names(b.predecessors@).contains(#[trigger] incoming@[q].1.0@)),
                        decreases incoming@.len() - p,
                    {
                        let ib = &incoming[p].1;
                        if !contains_block_name(&b.predecessors, ib.0.as_str()) {
                            errors.push(use_message(
                                self.name.as_str(),
                                b.id.0.as_str(),
                                "phi incoming block '",
                                ib.0.as_str(),
                                "' is not a predecessor.",
                                "",
                                "",
                            ));
                        }
                        p = p + 1;
                    }
                },
                _ => {},
            }
            let ghost e1 = errors@.len();
            let used = instr.used_values();
            let mut u: usize = 0;
            while u < used.len()
                invariant
                    *b == self.blocks@[bi as int],
                    bi < self.blocks@.len(),
                    used@.map_values(|d: IRValueId| d.0@) == used_values_of(instr.kind),
                    0 <= u <= used@.len(),
                    e1 <= errors@.len(),
                    (errors@.len() == e1) <==> (forall|w: int|
                        0 <= w < u ==> {
                            let v = #[trigger] used_values_of(instr.kind)[w];
                            &&& block_defs(self.blocks@).contains(v)
                            &&& (self.def_block(v) == b.id.0@ || self.reaches_spec(self.def_block(v), b.id.0@))
                        }),
                decreases used@.len() - u,
            {
                let v = &used[u];
                assert(used_values_of(instr.kind)[u as int] == v.0@);
                match self.find_def_block(v.0.as_str()) {
                    None => {
                        errors.push(use_message(
                            self.name.as_str(),
                            b.id.0.as_str(),
                            "use of undefined value '",
                            v.0.as_str(),
                            "'.",
                            "",
                            "",
                        ));
                    },
                    Some(d) => {
                        let def_id = &self.blocks[d].id;
                        if !str_equal(def_id.0.as_str(), b.id.0.as_str()) {
                            if !self.reaches(def_id, &b.id) {
                                errors.push(use_message(
                                    self.name.as_str(),
                                    b.id.0.as_str(),
                                    "value '",
                                    v.0.as_str(),
                                    "' used here but defined in unreachable block '",
                                    def_id.0.as_str(),
                                    "'.",
                                ));
                            }
                        }
                    },
                }
                u = u + 1;
            }
            proof {
                assert((errors@.len() == e0) <==> self.uses_ok(bi as int, k as int));
            }
            k = k + 1;
        }
    }

    /// Checks the function: every block has instructions, ends with a jump,
    /// branch or return, and has phi nodes with incoming values; no value is
    /// defined twice; then that phi nodes come from predecessors and that each
    /// value read is defined in a block from which the reading block can be
    /// reached. Refused with the list of problems found (see `valid`).
    pub fn validate(&self) -> (r: Result<(), Vec<String>>)
        ensures
            r is Ok <==> self.valid(),
            r matches Err(es) ==> es@.len() > 0,
    {
        let mut errors: Vec<String> = Vec::new();
        if self.blocks.len() == 0 {
            errors.push(function_message(self.name.as_str(), "' has no blocks.", "", ""));
        }
        let mut defined: Vec<String> = Vec::new();
        let mut bi: usize = 0;
        assert(self.blocks@.take(0) =~= Seq::<BasicBlock>::empty());
        assert(strs(defined@) =~= Seq::<Seq<char>>::empty());
        while bi < self.blocks.len()
            invariant
                0 <= bi <= self.blocks@.len(),
                strs(defined@).no_duplicates(),
                (errors@.len() == 0) <==> (self.blocks@.len() > 0 && (forall|b: int|
                    0 <= b < bi ==> block_shape_ok(#[trigger] self.blocks@[b])) && block_defs(
                    self.blocks@.take(bi as int),
                ).no_duplicates()),
                errors@.len() == 0 ==> strs(defined@) == block_defs(self.blocks@.take(bi as int)),
            decreases self.blocks@.len() - bi,
        {
            let ghost e0 = errors@.len();
            let ghost d0 = strs(defined@);
            assert(self.blocks@.take(bi + 1).drop_last() =~= self.blocks@.take(bi as int));
            assert(self.blocks@.take(bi + 1).last() == self.blocks@[bi as int]);
            self.check_block_shape(&self.blocks[bi], &mut defined, &mut errors);
            proof {
                if e0 > 0 {
                    if block_defs(self.blocks@.take(bi + 1)).no_duplicates() {
                        lemma_no_duplicates_prefix(
                            block_defs(self.blocks@.take(bi as int)),
                            instr_defs(self.blocks@[bi as int].instructions@),
                        );
                    }
                }
            }
            bi = bi + 1;
        }
        assert(self.blocks@.take(bi as int) =~= self.blocks@);
        if errors.len() > 0 {
            return Err(errors);
        }
        let mut bj: usize = 0;
        while bj < self.blocks.len()
            invariant
                0 <= bj <= self.blocks@.len(),
                self.shape_ok(),
                (errors@.len() == 0) <==> (forall|b: int, i: int|
                    0 <= b < bj && 0 <= i < self.blocks@[b].instructions@.len() ==> #[trigger] self.uses_ok(b, i)),
            decreases self.blocks@.len() - bj,
        {
            let ghost e0 = errors@.len();
            self.check_block_uses(bj, &mut errors);
            proof {
                if errors@.len() == 0 {
                    assert forall|b: int, i: int|
                        0 <= b < bj + 1 && 0 <= i < self.blocks@[b].instructions@.len() implies #[trigger] self.uses_ok(
                            b,
                            i,
                        ) by {
                        if b == bj {
                            assert(self.uses_ok(bj as int, i));
                        }
                    }
                } else if e0 == 0 {
                    let i = choose|i: int|
                        0 <= i < self.blocks@[bj as int].instructions@.len() && !#[trigger] self.uses_ok(bj as int, i);
                }
            }
            bj = bj + 1;
        }
        if errors.len() == 0 {
            Ok(())
        } else {
            Err(errors)
        }
    }
}

/// `x` is in `a + b` exactly when it is in `a` or in `b`.
pub proof fn lemma_concat_contains(a: Seq<Seq<char>>, b: Seq<Seq<char>>, x: Seq<char>)
    ensures
        (a + b).contains(x) <==> (a.contains(x) || b.contains(x)),
{
    if a.contains(x) {
        let k = choose|k: int| 0 <= k < a.len() && a[k] == x;
        assert((a + b)[k] == x);
    }
    if b.contains(x) {
        let k = choose|k: int| 0 <= k < b.len() && b[k] == x;
        assert((a + b)[a.len() + k] == x);
    }
    if (a + b).contains(x) {
        let k = choose|k: int| 0 <= k < (a + b).len() && (a + b)[k] == x;
        if k < a.len() {
            assert(a[k] == x);
        } else {
            assert(b[k - a.len()] == x);
        }
    }
}


/// A module of the intermediate representation: its functions in order.
#[derive(Debug)]
pub struct IRModule {
    pub name: String,
    pub functions: Vec<IRFunction>,
}

impl IRModule {
    /// The names of the functions, in order.
    pub open spec fn function_names(&self) -> Seq<Seq<char>> {
        self.functions@.map_values(|f: IRFunction| f.name@)
    }

    /// Whether the module passes `validate`: it has functions, and each is valid.
    pub open spec fn valid(&self) -> bool {
        &&& self.functions@.len() > 0
        &&& forall|i: int| 0 <= i < self.functions@.len() ==> (#[trigger] self.functions@[i]).valid()
    }

    pub fn new(name: String) -> (m: IRModule)
        ensures
            m.name@ == name@,
            m.functions@.len() == 0,
    {
        IRModule { name, functions: Vec::new() }
    }

    pub fn add_function(&mut self, function: IRFunction)
        ensures
            final(self).functions@ == old(self).functions@.push(function),
            final(self).name == old(self).name,
    {
        self.functions.push(function);
    }

    /// The first function named `name`.
    pub fn function(&self, name: &str) -> (r: Option<&IRFunction>)
        ensures
            match r {
                Some(f) => first_pos(self.function_names(), name@) >= 0 && *f == self.functions@[first_pos(
                    self.function_names(),
                    name@,
                )],
                None => first_pos(self.function_names(), name@) == -1,
            },
    {
        let ghost ns = self.function_names();
        proof {
            lemma_first_pos(ns, name@);
        }
        let mut i: usize = 0;
        while i < self.functions.len()
            invariant
                0 <= i <= ns.len(),
                ns == self.function_names(),
                ns.len() == self.functions@.len(),
                -1 <= first_pos(ns, name@) < ns.len(),
                first_pos(ns, name@) >= 0 ==> ns[first_pos(ns, name@)] == name@,
                first_pos(ns, name@) >= 0 ==> forall|j: int| 0 <= j < first_pos(ns, name@) ==> ns[j] != name@,
                first_pos(ns, name@) < 0 ==> forall|j: int| 0 <= j < ns.len() ==> ns[j] != name@,
                forall|j: int| 0 <= j < i ==> ns[j] != name@,
            decreases ns.len() - i,
        {
            if str_equal(self.functions[i].name.as_str(), name) {
                assert(ns[i as int] == name@);
                return Some(&self.functions[i]);
            }
            i = i + 1;
        }
        None
    }

    pub fn function_count(&self) -> (r: usize)
        ensures
            r == self.functions@.len(),
    {
        self.functions.len()
    }

    /// Checks every function; refused with the problems found, each prefixed
    /// with `Module 'NAME': `, or with `IR module 'NAME' has no functions.`.
    pub fn validate(&self) -> (r: Result<(), Vec<String>>)
        ensures
            r is Ok <==> self.valid(),
            r matches Err(es) ==> es@.len() > 0,
    {
        let mut errors: Vec<String> = Vec::new();
        if self.functions.len() == 0 {
            let mut m = string_from("IR module '");
            push_str(&mut m, self.name.as_str());
            push_str(&mut m, "' has no functions.");
            errors.push(m);
        }
        let mut i: usize = 0;
        while i < self.functions.len()
            invariant
                0 <= i <= self.functions@.len(),
                (errors@.len() == 0) <==> (self.functions@.len() > 0 && forall|j: int|
                    0 <= j < i ==> (#[trigger] self.functions@[j]).valid()),
            decreases self.functions@.len() - i,
        {
            match self.functions[i].validate() {
                Ok(_) => {},
                Err(function_errors) => {
                    let mut k: usize = 0;
                    let ghost e0 = errors@.len();
                    while k < function_errors.len()
                        invariant
                            0 <= k <= function_errors@.len(),
                            errors@.len() == e0 + k,
                        decreases function_errors@.len() - k,
                    {
                        let mut m = string_from("Module '");
                        push_str(&mut m, self.name.as_str());
                        push_str(&mut m, "': ");
                        push_str(&mut m, function_errors[k].as_str());
                        errors.push(m);
                        k = k + 1;
                    }
                },
            }
            i = i + 1;
        }
        if errors.len() == 0 {
            Ok(())
        } else {
            Err(errors)
        }
    }
}

} // verus!
