use vstd::prelude::*;
use vstd::set_lib::*;

use crate::ir::instruction::IRInstruction;
use crate::text::{push_str, str_equal, string_from, strs};

verus! {

/// The name of a basic block.
#[derive(Debug, PartialEq, Eq, Hash)]
pub struct BasicBlockId(pub String);

impl BasicBlockId {
    pub fn new(name: String) -> (r: BasicBlockId)
        ensures
            r.0@ == name@,
    {
        BasicBlockId(name)
    }
}

impl Clone for BasicBlockId {
    fn clone(&self) -> (r: BasicBlockId)
        ensures
            r.0@ == self.0@,
    {
        BasicBlockId(self.0.clone())
    }
}

/// The names of a list of block identifiers.
pub open spec fn block_names(ids: Seq<BasicBlockId>) -> Seq<Seq<char>> {
    ids.map_values(|b: BasicBlockId| b.0@)
}

/// A straight-line sequence of instructions, with the blocks control comes
/// from and goes to.
#[derive(Debug)]
pub struct BasicBlock {
    pub id: BasicBlockId,
    pub instructions: Vec<IRInstruction>,
    pub predecessors: Vec<BasicBlockId>,
    pub successors: Vec<BasicBlockId>,
}

/// Whether a list of block identifiers names `name`.
fn contains_block(ids: &Vec<BasicBlockId>, name: &str) -> (r: bool)
    ensures
        r == block_names(ids@).contains(name@),
{
    let ghost l = block_names(ids@);
    let mut k: usize = 0;
    while k < ids.len()
        invariant
            0 <= k <= ids@.len(),
            l == block_names(ids@),
            forall|j: int| 0 <= j < k ==> l[j] != name@,
        decreases ids@.len() - k,
    {
        if str_equal(ids[k].0.as_str(), name) {
            assert(l[k as int] == name@);
            return true;
        }
        k = k + 1;
    }
    false
}

/// Adds `id` to a list of block identifiers unless it names a block already there.
fn add_unique(ids: &mut Vec<BasicBlockId>, id: BasicBlockId)
    ensures
        block_names(final(ids)@) == if block_names(old(ids)@).contains(id.0@) {
            block_names(old(ids)@)
        } else {
            block_names(old(ids)@).push(id.0@)
        },
{
    if !contains_block(ids, id.0.as_str()) {
        let ghost before = block_names(ids@);
        let ghost name = id.0@;
        ids.push(id);
        assert(block_names(ids@) =~= before.push(name));
    }
}

impl BasicBlock {
    /// An empty block with no edges.
    pub fn new(id: String) -> (b: BasicBlock)
        ensures
            b.id.0@ == id@,
            b.instructions@.len() == 0,
            b.predecessors@.len() == 0,
            b.successors@.len() == 0,
    {
        BasicBlock { id: BasicBlockId::new(id), instructions: Vec::new(), predecessors: Vec::new(), successors: Vec::new() }
    }

    pub fn push_instruction(&mut self, instruction: IRInstruction)
        ensures
            final(self).instructions@ == old(self).instructions@.push(instruction),
            final(self).id == old(self).id,
            final(self).predecessors == old(self).predecessors,
            final(self).successors == old(self).successors,
    {
        self.instructions.push(instruction);
    }

    /// Adds a predecessor, unless it is there already.
    pub fn add_predecessor(&mut self, predecessor: BasicBlockId)
        ensures
            block_names(final(self).predecessors@) == if block_names(old(self).predecessors@).contains(
                predecessor.0@,
            ) {
                block_names(old(self).predecessors@)
            } else {
                block_names(old(self).predecessors@).push(predecessor.0@)
            },
            final(self).id == old(self).id,
            final(self).instructions == old(self).instructions,
            final(self).successors == old(self).successors,
    {
        add_unique(&mut self.predecessors, predecessor);
    }

    /// Adds a successor, unless it is there already.
    pub fn add_successor(&mut self, successor: BasicBlockId)
        ensures
            block_names(final(self).successors@) == if block_names(old(self).successors@).contains(successor.0@) {
                block_names(old(self).successors@)
            } else {
                block_names(old(self).successors@).push(successor.0@)
            },
            final(self).id == old(self).id,
            final(self).instructions == old(self).instructions,
            final(self).predecessors == old(self).predecessors,
    {
        add_unique(&mut self.successors, successor);
    }

    pub fn is_empty(&self) -> (r: bool)
        ensures
            r == (self.instructions@.len() == 0),
    {
        self.instructions.len() == 0
    }

    pub fn instruction_count(&self) -> (r: usize)
        ensures
            r == self.instructions@.len(),
    {
        self.instructions.len()
    }
}

/// The index of the block named `name` (the last such), or -1.
pub open spec fn name_pos(names: Seq<Seq<char>>, name: Seq<char>) -> int
    decreases names.len(),
{
    if names.len() == 0 {
        -1
    } else if names.last() == name {
        names.len() - 1
    } else {
        name_pos(names.drop_last(), name)
    }
}

pub proof fn lemma_name_pos(names: Seq<Seq<char>>, name: Seq<char>)
    ensures
        -1 <= name_pos(names, name) < names.len(),
        name_pos(names, name) >= 0 ==> names[name_pos(names, name)] == name,
        name_pos(names, name) < 0 <==> !names.contains(name),
    decreases names.len(),
{
    if names.len() > 0 {
        lemma_name_pos(names.drop_last(), name);
        if names.drop_last().contains(name) {
            let k = choose|k: int| 0 <= k < names.drop_last().len() && names.drop_last()[k] == name;
            assert(names[k] == name);
        }
        if names.contains(name) && names.last() != name {
            let k = choose|k: int| 0 <= k < names.len() && names[k] == name;
            assert(names.drop_last()[k] == name);
        }
        if names.last() == name {
            assert(names[names.len() - 1] == name);
        }
    }
}

pub proof fn lemma_name_pos_unique(names: Seq<Seq<char>>, i: int)
    requires
        names.no_duplicates(),
        0 <= i < names.len(),
    ensures
        name_pos(names, names[i]) == i,
{
    lemma_name_pos(names, names[i]);
}

/// A sequence of distinct indices below `n` has at most `n` elements.
pub proof fn lemma_distinct_bounded(s: Seq<int>, n: int)
    requires
        s.no_duplicates(),
        0 <= n,
        forall|k: int| 0 <= k < s.len() ==> 0 <= #[trigger] s[k] < n,
    ensures
        s.len() <= n,
{
    s.unique_seq_to_set();
    lemma_int_range(0, n);
    assert(s.to_set().subset_of(set_int_range(0, n)));
    lemma_len_subset(s.to_set(), set_int_range(0, n));
}

/// Whether some entry of the stack holds block `y`.
pub open spec fn on_stack(stack: Seq<(usize, usize)>, y: int) -> bool {
    exists|q: int| 0 <= q < stack.len() && stack[q].0 == y
}

/// A control-flow graph: blocks in order of creation, the first being the entry.
#[derive(Debug)]
pub struct ControlFlowGraph {
    pub entry: Option<BasicBlockId>,
    blocks: Vec<BasicBlock>,
}

impl ControlFlowGraph {
    /// The names of the blocks, in order of creation.
    pub closed spec fn names(&self) -> Seq<Seq<char>> {
        self.blocks@.map_values(|b: BasicBlock| b.id.0@)
    }

    /// The successors of block `i`, by name.
    pub closed spec fn succ_names(&self, i: int) -> Seq<Seq<char>> {
        block_names(self.blocks@[i].successors@)
    }

    /// The predecessors of block `i`, by name.
    pub closed spec fn pred_names(&self, i: int) -> Seq<Seq<char>> {
        block_names(self.blocks@[i].predecessors@)
    }

    /// The successors of block `i`, by index.
    pub open spec fn succ(&self, i: int) -> Seq<int> {
        self.succ_names(i).map_values(|n: Seq<char>| name_pos(self.names(), n))
    }

    /// Block names are distinct, edges join existing blocks, and the entry is
    /// the first block.
    pub open spec fn wf(&self) -> bool {
        &&& self.names().no_duplicates()
        &&& forall|i: int, k: int|
            0 <= i < self.names().len() && 0 <= k < self.succ_names(i).len() ==> self.names().contains(
                #[trigger] self.succ_names(i)[k],
            )
        &&& forall|i: int, k: int|
            0 <= i < self.names().len() && 0 <= k < self.pred_names(i).len() ==> self.names().contains(
                #[trigger] self.pred_names(i)[k],
            )
        &&& forall|i: int| 0 <= i < self.names().len() ==> #[trigger] self.succ_names(i).no_duplicates()
        &&& match self.entry_name() {
            Some(e) => self.names().len() > 0 && e == self.names()[0],
            None => self.names().len() == 0,
        }
    }

    /// The name of the entry block, if any.
    pub closed spec fn entry_name(&self) -> Option<Seq<char>> {
        match self.entry {
            Some(e) => Some(e.0@),
            None => None,
        }
    }

    /// An empty graph.
    pub fn new() -> (g: ControlFlowGraph)
        ensures
            g.wf(),
            g.names().len() == 0,
    {
        let g = ControlFlowGraph { entry: None, blocks: Vec::new() };
        assert(g.names() =~= Seq::<Seq<char>>::empty());
        g
    }

    fn find(&self, name: &str) -> (r: Option<usize>)
        ensures
            match r {
                Some(i) => i as int == name_pos(self.names(), name@) && i < self.names().len(),
                None => name_pos(self.names(), name@) == -1,
            },
    {
        let ghost ns = self.names();
        let mut i = self.blocks.len();
        assert(ns.take(i as int) =~= ns);
        while i > 0
            invariant
                0 <= i <= ns.len(),
                ns == self.names(),
                ns.len() == self.blocks@.len(),
                name_pos(ns, name@) == name_pos(ns.take(i as int), name@),
            decreases i,
        {
            assert(ns.take(i as int).last() == ns[i - 1]);
            if str_equal(self.blocks[i - 1].id.0.as_str(), name) {
                return Some(i - 1);
            }
            assert(ns.take(i as int).drop_last() == ns.take(i - 1));
            i = i - 1;
        }
        None
    }

    /// Adds a block named `name`, or finds the block of that name; the first
    /// block becomes the entry.
    pub fn create_block(&mut self, name: &str) -> (r: BasicBlockId)
        requires
            old(self).wf(),
        ensures
            final(self).wf(),
            r.0@ == name@,
            final(self).names() == if old(self).names().contains(name@) {
                old(self).names()
            } else {
                old(self).names().push(name@)
            },
            forall|i: int| 0 <= i < old(self).names().len() ==> final(self).succ_names(i) == old(self).succ_names(i),
            forall|i: int| 0 <= i < old(self).names().len() ==> final(self).pred_names(i) == old(self).pred_names(i),
            final(self).names().contains(name@),
            forall|x: Seq<char>| old(self).names().contains(x) ==> #[trigger] final(self).names().contains(x),
    {
        let ghost ns = self.names();
        proof {
            lemma_name_pos(ns, name@);
        }
        match self.find(name) {
            Some(_) => BasicBlockId::new(string_from(name)),
            None => {
                let ghost old_g = *self;
                self.blocks.push(BasicBlock::new(string_from(name)));
                if self.entry.is_none() {
                    self.entry = Some(BasicBlockId::new(string_from(name)));
                }
                proof {
                    let nn = self.names();
                    assert(nn =~= ns.push(name@));
                    assert(nn[ns.len() as int] == name@);
                    assert forall|x: Seq<char>| ns.contains(x) implies #[trigger] nn.contains(x) by {
                        let j = choose|j: int| 0 <= j < ns.len() && ns[j] == x;
                        assert(nn[j] == x);
                    }
                    assert forall|i: int| 0 <= i < ns.len() implies self.succ_names(i) == old_g.succ_names(i)
                        && self.pred_names(i) == old_g.pred_names(i) by {
                        assert(self.blocks@[i] == old_g.blocks@[i]);
                    }
                    assert(self.succ_names(ns.len() as int) =~= Seq::<Seq<char>>::empty());
                    assert(self.pred_names(ns.len() as int) =~= Seq::<Seq<char>>::empty());
                    assert forall|i: int, k: int|
                        0 <= i < nn.len() && 0 <= k < self.succ_names(i).len() implies nn.contains(
                            #[trigger] self.succ_names(i)[k],
                        ) by {
                        assert(old_g.names().contains(old_g.succ_names(i)[k]));
                        let j = choose|j: int| 0 <= j < ns.len() && ns[j] == old_g.succ_names(i)[k];
                        assert(nn[j] == ns[j]);
                    }
                    assert forall|i: int, k: int|
                        0 <= i < nn.len() && 0 <= k < self.pred_names(i).len() implies nn.contains(
                            #[trigger] self.pred_names(i)[k],
                        ) by {
                        assert(old_g.names().contains(old_g.pred_names(i)[k]));
                        let j = choose|j: int| 0 <= j < ns.len() && ns[j] == old_g.pred_names(i)[k];
                        assert(nn[j] == ns[j]);
                    }
                    assert forall|i: int| 0 <= i < nn.len() implies #[trigger] self.succ_names(i).no_duplicates() by {
                        if i < ns.len() {
                            assert(old_g.succ_names(i).no_duplicates());
                        }
                    }
                }
                BasicBlockId::new(string_from(name))
            },
        }
    }

    /// Adds the edge `from -> to` (once) when both blocks exist.
    pub fn add_edge(&mut self, from: &BasicBlockId, to: &BasicBlockId)
        requires
            old(self).wf(),
        ensures
            final(self).wf(),
            final(self).names() == old(self).names(),
            final(self).entry_name() == old(self).entry_name(),
            ({
                let ns = old(self).names();
                let f = name_pos(ns, from.0@);
                let t = name_pos(ns, to.0@);
                forall|i: int|
                    0 <= i < ns.len() ==> #[trigger] final(self).succ_names(i) == if i == f && t >= 0 && !old(
                        self,
                    ).succ_names(i).contains(to.0@) {
                        old(self).succ_names(i).push(to.0@)
                    } else {
                        old(self).succ_names(i)
                    }
            }),
    {
        let ghost ns = self.names();
        let fi = self.find(from.0.as_str());
        let ti = self.find(to.0.as_str());
        proof {
            lemma_name_pos(ns, from.0@);
            lemma_name_pos(ns, to.0@);
        }
        match (fi, ti) {
            (Some(f), Some(t)) => {
                let ghost old_g = *self;
                let mut fb = self.blocks.remove(f);
                fb.add_successor(BasicBlockId::new(string_from(to.0.as_str())));
                self.blocks.insert(f, fb);
                let ghost mid = *self;
                assert(self.blocks@ =~= old_g.blocks@.update(f as int, self.blocks@[f as int]));
                let mut tb = self.blocks.remove(t);
                tb.add_predecessor(BasicBlockId::new(string_from(from.0.as_str())));
                self.blocks.insert(t, tb);
                assert(self.blocks@ =~= mid.blocks@.update(t as int, self.blocks@[t as int]));
                proof {
                    assert(self.names() =~= ns);
                    assert forall|i: int| 0 <= i < ns.len() implies #[trigger] self.succ_names(i) == if i == f
                        && !old_g.succ_names(i).contains(to.0@) {
                        old_g.succ_names(i).push(to.0@)
                    } else {
                        old_g.succ_names(i)
                    } by {
                        if i != f {
                            assert(self.blocks@[i].successors == old_g.blocks@[i].successors);
                        }
                    }
                    assert forall|i: int, k: int|
                        0 <= i < ns.len() && 0 <= k < self.succ_names(i).len() implies ns.contains(
                            #[trigger] self.succ_names(i)[k],
                        ) by {
                        if i == f && k == old_g.succ_names(i).len() {
                            assert(ns[t as int] == to.0@);
                        } else {
                            assert(self.succ_names(i)[k] == old_g.succ_names(i)[k]);
                        }
                    }
                    assert forall|i: int, k: int|
                        0 <= i < ns.len() && 0 <= k < self.pred_names(i).len() implies ns.contains(
                            #[trigger] self.pred_names(i)[k],
                        ) by {
                        if i == t && k == old_g.pred_names(i).len() {
                            assert(ns[f as int] == from.0@);
                        } else if i == t {
                            assert(self.pred_names(i)[k] == old_g.pred_names(i)[k]);
                        } else {
                            assert(self.blocks@[i].predecessors == old_g.blocks@[i].predecessors);
                            assert(self.pred_names(i)[k] == old_g.pred_names(i)[k]);
                        }
                    }
                    assert forall|i: int| 0 <= i < ns.len() implies #[trigger] self.succ_names(i).no_duplicates() by {
                        assert(old_g.succ_names(i).no_duplicates());
                    }
                }
            },
            _ => {},
        }
    }

    /// The successors of the block `id`, if it exists.
    pub fn successors(&self, id: &BasicBlockId) -> (r: Option<&[BasicBlockId]>)
        ensures
            match r {
                Some(s) => name_pos(self.names(), id.0@) >= 0 && block_names(s@) == self.succ_names(
                    name_pos(self.names(), id.0@),
                ),
                None => name_pos(self.names(), id.0@) == -1,
            },
    {
        match self.find(id.0.as_str()) {
            Some(i) => Some(self.blocks[i].successors.as_slice()),
            None => None,
        }
    }

    /// The predecessors of the block `id`, if it exists.
    pub fn predecessors(&self, id: &BasicBlockId) -> (r: Option<&[BasicBlockId]>)
        ensures
            match r {
                Some(s) => name_pos(self.names(), id.0@) >= 0 && block_names(s@) == self.pred_names(
                    name_pos(self.names(), id.0@),
                ),
                None => name_pos(self.names(), id.0@) == -1,
            },
    {
        match self.find(id.0.as_str()) {
            Some(i) => Some(self.blocks[i].predecessors.as_slice()),
            None => None,
        }
    }

    /// The indices of the successors of block `i`.
    fn successor_indices(&self, i: usize) -> (r: Vec<usize>)
        requires
            self.wf(),
            i < self.names().len(),
        ensures
            r@.map_values(|x: usize| x as int) == self.succ(i as int),
            forall|k: int| 0 <= k < r@.len() ==> (#[trigger] r@[k]) < self.names().len(),
    {
        let succs = &self.blocks[i].successors;
        let ghost sn = self.succ_names(i as int);
        let mut r: Vec<usize> = Vec::new();
        let mut k: usize = 0;
        while k < succs.len()
            invariant
                self.wf(),
                i < self.names().len(),
                succs@ == self.blocks@[i as int].successors@,
                sn == self.succ_names(i as int),
                sn == block_names(succs@),
                0 <= k <= succs@.len(),
                r@.map_values(|x: usize| x as int) == self.succ(i as int).take(k as int),
                forall|m: int| 0 <= m < r@.len() ==> (#[trigger] r@[m]) < self.names().len(),
            decreases succs@.len() - k,
        {
            assert(self.names().contains(sn[k as int]));
            proof {
                lemma_name_pos(self.names(), sn[k as int]);
            }
            let j = self.find(succs[k].0.as_str());
            let j = match j {
                Some(j) => j,
                None => {
                    assert(false);
                    0
                },
            };
            assert(sn[k as int] == succs@[k as int].0@);
            assert(self.succ(i as int)[k as int] == j as int);
            let ghost before = r@.map_values(|x: usize| x as int);
            r.push(j);
            assert(r@.map_values(|x: usize| x as int) =~= before.push(j as int));
            assert(self.succ(i as int).take(k + 1) =~= self.succ(i as int).take(k as int).push(j as int));
            k = k + 1;
        }
        assert(self.succ(i as int).take(k as int) =~= self.succ(i as int));
        r
    }

    /// The names of the blocks at the given indices.
    fn ids_of(&self, order: &Vec<usize>) -> (r: Vec<BasicBlockId>)
        requires
            forall|k: int| 0 <= k < order@.len() ==> (#[trigger] order@[k]) < self.names().len(),
        ensures
            block_names(r@) == order@.map_values(|x: usize| self.names()[x as int]),
    {
        let mut r: Vec<BasicBlockId> = Vec::new();
        let mut k: usize = 0;
        while k < order.len()
            invariant
                forall|m: int| 0 <= m < order@.len() ==> (#[trigger] order@[m]) < self.names().len(),
                0 <= k <= order@.len(),
                block_names(r@) == order@.take(k as int).map_values(|x: usize| self.names()[x as int]),
            decreases order@.len() - k,
        {
            let ghost before = block_names(r@);
            let id = self.blocks[order[k]].id.clone();
            assert(id.0@ == self.names()[order@[k as int] as int]);
            r.push(id);
            assert(block_names(r@) =~= before.push(self.names()[order@[k as int] as int]));
            assert(order@.take(k + 1).map_values(|x: usize| self.names()[x as int]) =~= order@.take(k as int).map_values(
                |x: usize| self.names()[x as int],
            ).push(self.names()[order@[k as int] as int]));
            k = k + 1;
        }
        assert(order@.take(k as int) =~= order@);
        r
    }

    /// The blocks reachable from the entry, breadth first, successors in
    /// order (see `traversal_spec`).
    pub fn bfs_traversal(&self) -> (r: Vec<BasicBlockId>)
        requires
            self.wf(),
        ensures
            self.traversal_spec(block_names(r@)),
    {
        let n = self.blocks.len();
        let mut order: Vec<usize> = Vec::new();
        if n == 0 {
            let r: Vec<BasicBlockId> = Vec::new();
            assert(block_names(r@) =~= Seq::<Seq<char>>::empty());
            return r;
        }
        let mut visited: Vec<bool> = Vec::new();
        let mut k: usize = 0;
        while k < n
            invariant
                0 <= k <= n,
                visited@.len() == k,
                forall|m: int| 0 <= m < k ==> !visited@[m],
            decreases n - k,
        {
            visited.push(false);
            k = k + 1;
        }
        visited.set(0, true);
        order.push(0);
        let ghost mut parent: Seq<int> = seq![0int];
        assert(order@.map_values(|x: usize| x as int) =~= seq![0int]);
        assert forall|j: int| 0 <= j < n implies (visited@[j] <==> seq![0int].contains(j)) by {
            if j == 0 {
                assert(seq![0int][0] == 0);
            }
        }
        proof {
            self.lemma_succ_in_range();
        }
        let mut head: usize = 0;
        while head < order.len()
            invariant
                self.wf(),
                n == self.names().len(),
                n > 0,
                visited@.len() == n,
                0 <= head <= order@.len(),
                order@.len() > 0,
                order@[0] == 0,
                parent.len() == order@.len(),
                order@.map_values(|x: usize| x as int).no_duplicates(),
                forall|i: int, t: int|
                    0 <= i < self.names().len() && 0 <= t < self.succ(i).len() ==> 0 <= #[trigger] self.succ(i)[t]
                        < self.names().len(),
                forall|m: int| 0 <= m < order@.len() ==> (#[trigger] order@[m]) < n,
                forall|j: int| 0 <= j < n ==> (visited@[j] <==> order@.map_values(|x: usize| x as int).contains(j)),
                forall|m: int, t: int|
                    0 <= m < head && 0 <= t < self.succ(order@[m] as int).len() ==> visited@[#[trigger] self.succ(
                        order@[m] as int,
                    )[t]],
                forall|m: int|
                    0 < m < order@.len() ==> 0 <= #[trigger] parent[m] < m && self.succ(
                        order@[parent[m]] as int,
                    ).contains(order@[m] as int),
            decreases n - head,
        {
            proof {
                lemma_distinct_bounded(order@.map_values(|x: usize| x as int), n as int);
            }
            let cur = order[head];
            let succs = self.successor_indices(cur);
            let mut s: usize = 0;
            while s < succs.len()
                invariant
                    self.wf(),
                    n == self.names().len(),
                    n > 0,
                    visited@.len() == n,
                    0 <= head < order@.len(),
                    cur == order@[head as int],
                    order@[0] == 0,
                    parent.len() == order@.len(),
                    succs@.map_values(|x: usize| x as int) == self.succ(cur as int),
                    forall|m: int| 0 <= m < succs@.len() ==> (#[trigger] succs@[m]) < n,
                    0 <= s <= succs@.len(),
                    order@.map_values(|x: usize| x as int).no_duplicates(),
                    forall|i: int, t: int|
                        0 <= i < self.names().len() && 0 <= t < self.succ(i).len() ==> 0 <= #[trigger] self.succ(i)[t]
                            < self.names().len(),
                    forall|m: int| 0 <= m < order@.len() ==> (#[trigger] order@[m]) < n,
                    forall|j: int|
                        0 <= j < n ==> (visited@[j] <==> order@.map_values(|x: usize| x as int).contains(j)),
                    forall|m: int, t: int|
                        0 <= m < head && 0 <= t < self.succ(order@[m] as int).len() ==> visited@[#[trigger] self.succ(
                            order@[m] as int,
                        )[t]],
                    forall|t: int| 0 <= t < s ==> visited@[#[trigger] self.succ(cur as int)[t]],
                    forall|m: int|
                        0 < m < order@.len() ==> 0 <= #[trigger] parent[m] < m && self.succ(
                            order@[parent[m]] as int,
                        ).contains(order@[m] as int),
                decreases succs@.len() - s,
            {
                let j = succs[s];
                assert(self.succ(cur as int)[s as int] == j as int);
                if !visited[j] {
                    let ghost old_order = order@;
                    let ghost old_visited = visited@;
                    let ghost old_parent = parent;
                    proof {
                        lemma_distinct_bounded(order@.map_values(|x: usize| x as int), n as int);
                    }
                    visited.set(j, true);
                    order.push(j);
                    proof {
                        parent = parent.push(head as int);
                        let om = old_order.map_values(|x: usize| x as int);
                        let nm = order@.map_values(|x: usize| x as int);
                        assert(nm =~= om.push(j as int));
                        assert(!om.contains(j as int));
                        assert forall|a: int, b: int| 0 <= a < nm.len() && 0 <= b < nm.len() && a != b implies nm[a]
                            != nm[b] by {
                            if a < om.len() && b < om.len() {
                                assert(nm[a] == om[a] && nm[b] == om[b]);
                            } else if a < om.len() {
                                assert(nm[a] == om[a]);
                            } else {
                                assert(nm[b] == om[b]);
                            }
                        }
                        assert forall|jj: int| 0 <= jj < n implies (visited@[jj] <==> nm.contains(jj)) by {
                            if nm.contains(jj) && jj != j {
                                let w = choose|w: int| 0 <= w < nm.len() && nm[w] == jj;
                                assert(w < om.len());
                                assert(om[w] == jj);
                            }
                            if om.contains(jj) {
                                let w = choose|w: int| 0 <= w < om.len() && om[w] == jj;
                                assert(nm[w] == jj);
                            }
                            if jj == j {
                                assert(nm[om.len() as int] == jj);
                            }
                        }
                        assert forall|m: int| 0 <= m < order@.len() implies (#[trigger] order@[m]) < n by {
                            if m < old_order.len() {
                                assert(order@[m] == old_order[m]);
                            }
                        }
                        assert forall|m: int, t: int|
                            0 <= m < head && 0 <= t < self.succ(order@[m] as int).len() implies visited@[
                                #[trigger] self.succ(order@[m] as int)[t]] by {
                            assert(order@[m] == old_order[m]);
                            assert(old_visited[self.succ(old_order[m] as int)[t]]);
                        }
                        assert forall|t: int| 0 <= t < s + 1 implies visited@[#[trigger] self.succ(cur as int)[t]] by {
                            if t < s {
                                assert(old_visited[self.succ(cur as int)[t]]);
                            }
                        }
                        assert forall|m: int|
                            0 < m < order@.len() implies 0 <= #[trigger] parent[m] < m && self.succ(
                                order@[parent[m]] as int,
                            ).contains(order@[m] as int) by {
                            if m == order@.len() - 1 {
                                assert(parent[m] == head);
                                assert(order@[head as int] == cur);
                                assert(self.succ(cur as int)[s as int] == order@[m] as int);
                            } else {
                                assert(parent[m] == old_parent[m]);
                                assert(order@[m] == old_order[m]);
                                assert(order@[old_parent[m]] == old_order[old_parent[m]]);
                            }
                        }
                    }
                }
                s = s + 1;
            }
            head = head + 1;
        }
        let r = self.ids_of(&order);
        proof {
            self.lemma_traversal_closed(order@, parent, r@);
        }
        r
    }

    /// The blocks reachable from the entry, depth first in preorder,
    /// successors in order (see `traversal_spec`).
    pub fn dfs_traversal(&self) -> (r: Vec<BasicBlockId>)
        requires
            self.wf(),
        ensures
            self.traversal_spec(block_names(r@)),
    {
        let n = self.blocks.len();
        if n == 0 {
            let r: Vec<BasicBlockId> = Vec::new();
            assert(block_names(r@) =~= Seq::<Seq<char>>::empty());
            return r;
        }
        proof {
            self.lemma_succ_in_range();
        }
        let mut visited: Vec<bool> = Vec::new();
        let mut k: usize = 0;
        while k < n
            invariant
                0 <= k <= n,
                visited@.len() == k,
                forall|m: int| 0 <= m < k ==> !visited@[m],
            decreases n - k,
        {
            visited.push(false);
            k = k + 1;
        }
        let mut order: Vec<usize> = Vec::new();
        let ghost mut parent: Seq<int> = seq![0int];
        let mut stack: Vec<(usize, usize)> = Vec::new();
        visited.set(0, true);
        order.push(0);
        assert(order@.map_values(|x: usize| x as int) =~= seq![0int]);
        assert forall|j: int| 0 <= j < n implies (visited@[j] <==> seq![0int].contains(j)) by {
            if j == 0 {
                assert(seq![0int][0] == 0);
            }
        }
        self.push_successors(&mut stack, 0, 0);
        while stack.len() > 0
            invariant
                self.wf(),
                n == self.names().len(),
                n > 0,
                visited@.len() == n,
                order@.len() > 0,
                order@[0] == 0,
                parent.len() == order@.len(),
                order@.map_values(|x: usize| x as int).no_duplicates(),
                forall|i: int, t: int|
                    0 <= i < self.names().len() && 0 <= t < self.succ(i).len() ==> 0 <= #[trigger] self.succ(i)[t]
                        < self.names().len(),
                forall|m: int| 0 <= m < order@.len() ==> (#[trigger] order@[m]) < n,
                forall|j: int| 0 <= j < n ==> (visited@[j] <==> order@.map_values(|x: usize| x as int).contains(j)),
                forall|q: int|
                    0 <= q < stack@.len() ==> (#[trigger] stack@[q]).1 < order@.len() && stack@[q].0 < n
                        && self.succ(order@[stack@[q].1 as int] as int).contains(stack@[q].0 as int),
                forall|m: int, t: int|
                    0 <= m < order@.len() && 0 <= t < self.succ(order@[m] as int).len() ==> visited@[
                        #[trigger] self.succ(order@[m] as int)[t]] || on_stack(stack@, self.succ(order@[m] as int)[t]),
                forall|m: int|
                    0 < m < order@.len() ==> 0 <= #[trigger] parent[m] < m && self.succ(
                        order@[parent[m]] as int,
                    ).contains(order@[m] as int),
            decreases n - order@.len(), stack@.len(),
        {
            proof {
                lemma_distinct_bounded(order@.map_values(|x: usize| x as int), n as int);
            }
            let ghost old_stack = stack@;
            let top = stack.pop();
            let (x, from) = match top {
                Some(e) => e,
                None => {
                    assert(false);
                    (0, 0)
                },
            };
            assert(stack@ =~= old_stack.drop_last());
            assert(old_stack.last() == (x, from));
            if visited[x] {
                proof {
                    assert forall|m: int, t: int|
                        0 <= m < order@.len() && 0 <= t < self.succ(order@[m] as int).len() implies visited@[
                            #[trigger] self.succ(order@[m] as int)[t]] || on_stack(stack@, self.succ(order@[m] as int)[t]) by {
                        let y = self.succ(order@[m] as int)[t];
                        if !visited@[y] {
                            assert(on_stack(old_stack, y));
                            let q = choose|q: int| 0 <= q < old_stack.len() && old_stack[q].0 == y;
                            assert(q < old_stack.len() - 1);
                            assert(stack@[q] == old_stack[q]);
                        }
                    }
                }
            } else {
                let ghost old_order = order@;
                let ghost old_visited = visited@;
                let ghost old_parent = parent;
                visited.set(x, true);
                order.push(x);
                proof {
                    parent = parent.push(from as int);
                    let om = old_order.map_values(|v: usize| v as int);
                    let nm = order@.map_values(|v: usize| v as int);
                    assert(nm =~= om.push(x as int));
                    assert(!om.contains(x as int));
                    assert forall|a: int, b: int| 0 <= a < nm.len() && 0 <= b < nm.len() && a != b implies nm[a]
                        != nm[b] by {
                        if a < om.len() && b < om.len() {
                            assert(nm[a] == om[a] && nm[b] == om[b]);
                        } else if a < om.len() {
                            assert(nm[a] == om[a]);
                        } else {
                            assert(nm[b] == om[b]);
                        }
                    }
                    assert forall|jj: int| 0 <= jj < n implies (visited@[jj] <==> nm.contains(jj)) by {
                        if nm.contains(jj) && jj != x {
                            let w = choose|w: int| 0 <= w < nm.len() && nm[w] == jj;
                            assert(w < om.len());
                            assert(om[w] == jj);
                        }
                        if om.contains(jj) {
                            let w = choose|w: int| 0 <= w < om.len() && om[w] == jj;
                            assert(nm[w] == jj);
                        }
                        if jj == x {
                            assert(nm[om.len() as int] == jj);
                        }
                    }
                    assert forall|m: int| 0 <= m < order@.len() implies (#[trigger] order@[m]) < n by {
                        if m < old_order.len() {
                            assert(order@[m] == old_order[m]);
                        }
                    }
                    assert forall|q: int|
                        0 <= q < stack@.len() implies (#[trigger] stack@[q]).1 < order@.len() && stack@[q].0 < n
                            && self.succ(order@[stack@[q].1 as int] as int).contains(stack@[q].0 as int) by {
                        assert(stack@[q] == old_stack[q]);
                        assert(order@[stack@[q].1 as int] == old_order[stack@[q].1 as int]);
                    }
                    assert forall|m: int, t: int|
                        0 <= m < old_order.len() && 0 <= t < self.succ(order@[m] as int).len() implies visited@[
                            #[trigger] self.succ(order@[m] as int)[t]] || on_stack(stack@, self.succ(order@[m] as int)[t]) by {
                        assert(order@[m] == old_order[m]);
                        let y = self.succ(order@[m] as int)[t];
                        if !visited@[y] {
                            assert(!old_visited[y]);
                            assert(on_stack(old_stack, y));
                            let q = choose|q: int| 0 <= q < old_stack.len() && old_stack[q].0 == y;
                            assert(q < old_stack.len() - 1);
                            assert(stack@[q] == old_stack[q]);
                        }
                    }
                    assert forall|m: int|
                        0 < m < order@.len() implies 0 <= #[trigger] parent[m] < m && self.succ(
                            order@[parent[m]] as int,
                        ).contains(order@[m] as int) by {
                        if m == order@.len() - 1 {
                            assert(parent[m] == from);
                            assert(order@[from as int] == old_order[from as int]);
                            assert(self.succ(old_order[from as int] as int).contains(x as int));
                        } else {
                            assert(parent[m] == old_parent[m]);
                            assert(order@[m] == old_order[m]);
                            assert(order@[old_parent[m]] == old_order[old_parent[m]]);
                        }
                    }
                }
                let pos = order.len() - 1;
                self.push_successors(&mut stack, x, pos);
                proof {
                    lemma_distinct_bounded(order@.map_values(|v: usize| v as int), n as int);
                    assert forall|m: int, t: int|
                        0 <= m < order@.len() && 0 <= t < self.succ(order@[m] as int).len() implies visited@[
                            #[trigger] self.succ(order@[m] as int)[t]] || on_stack(stack@, self.succ(order@[m] as int)[t]) by {
                        let y = self.succ(order@[m] as int)[t];
                        if m == pos {
                            assert(order@[m] == x);
                        }
                    }
                }
            }
        }
        proof {
            assert forall|m: int, t: int|
                0 <= m < order@.len() && 0 <= t < self.succ(order@[m] as int).len() implies order@.map_values(
                    |v: usize| v as int,
                ).contains(#[trigger] self.succ(order@[m] as int)[t]) by {
                let y = self.succ(order@[m] as int)[t];
                assert(visited@[y] || on_stack(stack@, y));
            }
        }
        let r = self.ids_of(&order);
        proof {
            self.lemma_traversal_closed(order@, parent, r@);
        }
        r
    }

    /// Pushes the successors of block `i` on the stack, last first, each with
    /// `pos`, the position of `i` in the traversal.
    fn push_successors(&self, stack: &mut Vec<(usize, usize)>, i: usize, pos: usize)
        requires
            self.wf(),
            i < self.names().len(),
        ensures
            final(stack)@.len() >= old(stack)@.len(),
            forall|q: int| 0 <= q < old(stack)@.len() ==> final(stack)@[q] == old(stack)@[q],
            forall|q: int|
                old(stack)@.len() <= q < final(stack)@.len() ==> (#[trigger] final(stack)@[q]).1 == pos
                    && self.succ(i as int).contains(final(stack)@[q].0 as int) && final(stack)@[q].0 < self.names().len(),
            forall|t: int| 0 <= t < self.succ(i as int).len() ==> on_stack(final(stack)@, #[trigger] self.succ(i as int)[t]),
    {
        let succs = self.successor_indices(i);
        let ghost start = stack@;
        let mut t = succs.len();
        while t > 0
            invariant
                0 <= t <= succs@.len(),
                succs@.map_values(|x: usize| x as int) == self.succ(i as int),
                forall|m: int| 0 <= m < succs@.len() ==> (#[trigger] succs@[m]) < self.names().len(),
                stack@.len() >= start.len(),
                forall|q: int| 0 <= q < start.len() ==> stack@[q] == start[q],
                forall|q: int|
                    start.len() <= q < stack@.len() ==> (#[trigger] stack@[q]).1 == pos
                        && self.succ(i as int).contains(stack@[q].0 as int) && stack@[q].0 < self.names().len(),
                forall|u: int| t <= u < succs@.len() ==> on_stack(stack@, #[trigger] self.succ(i as int)[u]),
            decreases t,
        {
            let j = succs[t - 1];
            assert(self.succ(i as int)[t - 1] == j as int);
            let ghost before = stack@;
            stack.push((j, pos));
            proof {
                assert(stack@[before.len() as int] == (j, pos));
                assert forall|u: int| t - 1 <= u < succs@.len() implies on_stack(stack@, #[trigger] self.succ(i as int)[u]) by {
                    if u == t - 1 {
                        assert(stack@[before.len() as int].0 == j);
                    } else {
                        let q = choose|q: int| 0 <= q < before.len() && before[q].0 == self.succ(i as int)[u];
                        assert(stack@[q] == before[q]);
                    }
                }
            }
            t = t - 1;
        }
    }

    /// What a traversal from the entry gives, by name: nothing for an empty
    /// graph; else the entry first, each block at most once, every successor
    /// of a listed block listed, and each block after the first a successor of
    /// one listed before it.
    pub open spec fn traversal_spec(&self, ns: Seq<Seq<char>>) -> bool {
        let names = self.names();
        if names.len() == 0 {
            ns.len() == 0
        } else {
            &&& ns.len() > 0
            &&& ns[0] == names[0]
            &&& ns.no_duplicates()
            &&& forall|k: int| 0 <= k < ns.len() ==> names.contains(#[trigger] ns[k])
            &&& forall|k: int, s: int|
                0 <= k < ns.len() && 0 <= s < self.succ_names(name_pos(names, ns[k])).len() ==> ns.contains(
                    #[trigger] self.succ_names(name_pos(names, ns[k]))[s],
                )
            &&& forall|k: int| 0 < k < ns.len() ==> #[trigger] self.found_from_earlier(ns, k)
        }
    }

    /// Whether `ns[k]` is a successor of a block listed before it.
    pub open spec fn found_from_earlier(&self, ns: Seq<Seq<char>>, k: int) -> bool {
        exists|p: int| 0 <= p < k && #[trigger] self.succ_names(name_pos(self.names(), ns[p])).contains(ns[k])
    }

    /// Successor indices name blocks.
    proof fn lemma_succ_in_range(&self)
        requires
            self.wf(),
        ensures
            forall|i: int, t: int|
                0 <= i < self.names().len() && 0 <= t < self.succ(i).len() ==> 0 <= #[trigger] self.succ(i)[t]
                    < self.names().len(),
    {
        assert forall|i: int, t: int|
            0 <= i < self.names().len() && 0 <= t < self.succ(i).len() implies 0 <= #[trigger] self.succ(i)[t]
                < self.names().len() by {
            assert(self.names().contains(self.succ_names(i)[t]));
            lemma_name_pos(self.names(), self.succ_names(i)[t]);
        }
    }

    proof fn lemma_traversal_closed(&self, order: Seq<usize>, parent: Seq<int>, r: Seq<BasicBlockId>)
        requires
            self.wf(),
            self.names().len() > 0,
            order.len() > 0,
            order[0] == 0,
            order.map_values(|x: usize| x as int).no_duplicates(),
            forall|m: int| 0 <= m < order.len() ==> (#[trigger] order[m]) < self.names().len(),
            forall|m: int, s: int|
                0 <= m < order.len() && 0 <= s < self.succ(order[m] as int).len() ==> order.map_values(
                    |x: usize| x as int,
                ).contains(#[trigger] self.succ(order[m] as int)[s]),
            parent.len() == order.len(),
            forall|m: int|
                0 < m < order.len() ==> 0 <= #[trigger] parent[m] < m && self.succ(order[parent[m]] as int).contains(
                    order[m] as int,
                ),
            block_names(r) == order.map_values(|x: usize| self.names()[x as int]),
        ensures
            self.traversal_spec(block_names(r)),
    {
        self.lemma_succ_in_range();
        let names = self.names();
        let ns = block_names(r);
        let oi = order.map_values(|x: usize| x as int);
        assert forall|k: int| 0 <= k < ns.len() implies name_pos(names, ns[k]) == order[k] as int by {
            lemma_name_pos_unique(names, order[k] as int);
        }
        assert forall|a: int, b: int| 0 <= a < ns.len() && 0 <= b < ns.len() && a != b implies ns[a] != ns[b] by {
            assert(oi[a] != oi[b]);
            lemma_name_pos_unique(names, order[a] as int);
            lemma_name_pos_unique(names, order[b] as int);
        }
        assert forall|k: int| 0 <= k < ns.len() implies names.contains(#[trigger] ns[k]) by {
            assert(names[order[k] as int] == ns[k]);
        }
        assert forall|k: int, s: int|
            0 <= k < ns.len() && 0 <= s < self.succ_names(name_pos(names, ns[k])).len() implies ns.contains(
                #[trigger] self.succ_names(name_pos(names, ns[k]))[s],
            ) by {
            let i = order[k] as int;
            let n = self.succ_names(i)[s];
            assert(names.contains(n));
            lemma_name_pos(names, n);
            let j = name_pos(names, n);
            assert(self.succ(i)[s] == j);
            assert(oi.contains(j));
            let w = choose|w: int| 0 <= w < oi.len() && oi[w] == j;
            assert(ns[w] == names[j]);
        }
        assert forall|k: int| 0 < k < ns.len() implies #[trigger] self.found_from_earlier(ns, k) by {
            let p = parent[k];
            let i = order[p] as int;
            let s = choose|s: int| 0 <= s < self.succ(i).len() && self.succ(i)[s] == order[k] as int;
            let n = self.succ_names(i)[s];
            assert(names.contains(n));
            lemma_name_pos(names, n);
            assert(names[order[k] as int] == n);
            assert(self.succ_names(name_pos(names, ns[p])).contains(ns[k]));
        }
    }

    /// Adds an edge and states it is there afterwards, with every edge that
    /// was there before.
    fn connect(&mut self, from: &BasicBlockId, to: &BasicBlockId)
        requires
            old(self).wf(),
            old(self).names().contains(from.0@),
            old(self).names().contains(to.0@),
        ensures
            final(self).wf(),
            final(self).names() == old(self).names(),
            final(self).entry_name() == old(self).entry_name(),
            final(self).succ_names(name_pos(final(self).names(), from.0@)).contains(to.0@),
            forall|i: int, x: Seq<char>|
                0 <= i < old(self).names().len() && old(self).succ_names(i).contains(x) ==> #[trigger] final(self).succ_names(i).contains(x),
    {
        proof {
            lemma_name_pos(self.names(), from.0@);
            lemma_name_pos(self.names(), to.0@);
        }
        let ghost before = *self;
        self.add_edge(from, to);
        proof {
            let f = name_pos(before.names(), from.0@);
            assert(self.succ_names(f) == if !before.succ_names(f).contains(to.0@) {
                before.succ_names(f).push(to.0@)
            } else {
                before.succ_names(f)
            });
            if !before.succ_names(f).contains(to.0@) {
                assert(self.succ_names(f)[before.succ_names(f).len() as int] == to.0@);
            }
            assert forall|i: int, x: Seq<char>|
                0 <= i < before.names().len() && before.succ_names(i).contains(x) implies #[trigger] self.succ_names(
                    i,
                ).contains(x) by {
                let k = choose|k: int| 0 <= k < before.succ_names(i).len() && before.succ_names(i)[k] == x;
                assert(self.succ_names(i)[k] == x);
            }
        }
    }

    /// Adds the blocks `then`, `else` and `merge` after `head`: `head` branches
    /// to `then` and `else`, which both go to `merge`.
    pub fn build_if_else(&mut self, head: &BasicBlockId, then_label: &str, else_label: &str, merge_label: &str) -> (r: (
        BasicBlockId,
        BasicBlockId,
        BasicBlockId,
    ))
        requires
            old(self).wf(),
            old(self).names().contains(head.0@),
        ensures
            final(self).wf(),
            r.0.0@ == then_label@,
            r.1.0@ == else_label@,
            r.2.0@ == merge_label@,
            final(self).names().contains(then_label@),
            final(self).names().contains(else_label@),
            final(self).names().contains(merge_label@),
            final(self).succ_names(name_pos(final(self).names(), head.0@)).contains(then_label@),
            final(self).succ_names(name_pos(final(self).names(), head.0@)).contains(else_label@),
            final(self).succ_names(name_pos(final(self).names(), then_label@)).contains(merge_label@),
            final(self).succ_names(name_pos(final(self).names(), else_label@)).contains(merge_label@),
    {
        let then_b = self.create_block(then_label);
        let else_b = self.create_block(else_label);
        let merge = self.create_block(merge_label);
        self.connect(head, &then_b);
        let ghost g1 = *self;
        self.connect(head, &else_b);
        self.connect(&then_b, &merge);
        let ghost g3 = *self;
        self.connect(&else_b, &merge);
        proof {
            lemma_name_pos(self.names(), head.0@);
            lemma_name_pos(self.names(), then_label@);
            lemma_name_pos(self.names(), else_label@);
            assert(g1.succ_names(name_pos(g1.names(), head.0@)).contains(then_label@));
            assert(g3.succ_names(name_pos(g3.names(), then_label@)).contains(merge_label@));
        }
        (then_b, else_b, merge)
    }

    /// Adds the blocks `cond`, `body` and `exit` after `head`: `head` goes to
    /// `cond`, which branches to `body` and `exit`; `body` goes back to `cond`.
    pub fn build_loop(&mut self, head: &BasicBlockId, cond_label: &str, body_label: &str, exit_label: &str) -> (r: (
        BasicBlockId,
        BasicBlockId,
        BasicBlockId,
    ))
        requires
            old(self).wf(),
            old(self).names().contains(head.0@),
        ensures
            final(self).wf(),
            r.0.0@ == cond_label@,
            r.1.0@ == body_label@,
            r.2.0@ == exit_label@,
            final(self).names().contains(cond_label@),
            final(self).names().contains(body_label@),
            final(self).names().contains(exit_label@),
            final(self).succ_names(name_pos(final(self).names(), head.0@)).contains(cond_label@),
            final(self).succ_names(name_pos(final(self).names(), cond_label@)).contains(body_label@),
            final(self).succ_names(name_pos(final(self).names(), cond_label@)).contains(exit_label@),
            final(self).succ_names(name_pos(final(self).names(), body_label@)).contains(cond_label@),
    {
        let cond = self.create_block(cond_label);
        let body = self.create_block(body_label);
        let exit = self.create_block(exit_label);
        self.connect(head, &cond);
        let ghost g1 = *self;
        self.connect(&cond, &body);
        let ghost g2 = *self;
        self.connect(&cond, &exit);
        let ghost g3 = *self;
        self.connect(&body, &cond);
        proof {
            lemma_name_pos(self.names(), head.0@);
            lemma_name_pos(self.names(), cond_label@);
            lemma_name_pos(self.names(), body_label@);
            assert(g1.succ_names(name_pos(g1.names(), head.0@)).contains(cond_label@));
            assert(g2.succ_names(name_pos(g2.names(), cond_label@)).contains(body_label@));
            assert(g3.succ_names(name_pos(g3.names(), cond_label@)).contains(exit_label@));
        }
        (cond, body, exit)
    }

    /// Refused with one message per block that cannot be reached from the
    /// entry (see `unreachable_messages`).
    pub fn validate(&self) -> (r: Result<(), Vec<String>>)
        requires
            self.wf(),
        ensures
            exists|ns: Seq<Seq<char>>| #[trigger]
                self.traversal_spec(ns) && match r {
                    Ok(_) => forall|i: int| 0 <= i < self.names().len() ==> ns.contains(#[trigger] self.names()[i]),
                    Err(es) => es@.len() > 0 && strs(es@) == unreachable_messages(self.names(), ns),
                },
    {
        let order = self.bfs_traversal();
        let ghost ns = block_names(order@);
        let mut errors: Vec<String> = Vec::new();
        let mut i: usize = 0;
        while i < self.blocks.len()
            invariant
                0 <= i <= self.names().len(),
                ns == block_names(order@),
                strs(errors@) == unreachable_messages(self.names().take(i as int), ns),
                errors@.len() == 0 ==> forall|m: int| 0 <= m < i ==> ns.contains(#[trigger] self.names()[m]),
            decreases self.names().len() - i,
        {
            let name = self.blocks[i].id.0.as_str();
            assert(self.names()[i as int] == name@);
            assert(self.names().take(i + 1).drop_last() =~= self.names().take(i as int));
            let ghost before = strs(errors@);
            if !contains_block(&order, name) {
                errors.push(unreachable_message(name));
                assert(strs(errors@) =~= before.push(unreachable_text(name@)));
            } else {
                assert(unreachable_messages(self.names().take(i + 1), ns) == before);
            }
            i = i + 1;
        }
        assert(self.names().take(i as int) =~= self.names());
        if errors.len() == 0 {
            Ok(())
        } else {
            Err(errors)
        }
    }
}

/// The message for a block that cannot be reached.
pub open spec fn unreachable_text(name: Seq<char>) -> Seq<char> {
    "Block '"@ + name + "' is unreachable from the entry block."@
}

/// One message for each of `names` that `reached` lacks, in order.
pub open spec fn unreachable_messages(names: Seq<Seq<char>>, reached: Seq<Seq<char>>) -> Seq<Seq<char>>
    decreases names.len(),
{
    if names.len() == 0 {
        Seq::empty()
    } else if reached.contains(names.last()) {
        unreachable_messages(names.drop_last(), reached)
    } else {
        unreachable_messages(names.drop_last(), reached).push(unreachable_text(names.last()))
    }
}

fn unreachable_message(name: &str) -> (r: String)
    ensures
        r@ == unreachable_text(name@),
{
    let mut r = string_from("Block '");
    push_str(&mut r, name);
    push_str(&mut r, "' is unreachable from the entry block.");
    r
}

/// Two traversals from the entry visit the same blocks.
pub proof fn law_traversals_agree(g: ControlFlowGraph, a: Seq<Seq<char>>, b: Seq<Seq<char>>, x: Seq<char>)
    requires
        g.wf(),
        g.traversal_spec(a),
        g.traversal_spec(b),
    ensures
        a.contains(x) <==> b.contains(x),
{
    if g.names().len() > 0 {
        lemma_traversal_within(g, a, b);
        lemma_traversal_within(g, b, a);
        if a.contains(x) {
            let k = choose|k: int| 0 <= k < a.len() && a[k] == x;
            assert(b.contains(a[k]));
        }
        if b.contains(x) {
            let k = choose|k: int| 0 <= k < b.len() && b[k] == x;
            assert(a.contains(b[k]));
        }
    }
}

/// Every block of one traversal is in any other.
proof fn lemma_traversal_within(g: ControlFlowGraph, a: Seq<Seq<char>>, b: Seq<Seq<char>>)
    requires
        g.wf(),
        g.names().len() > 0,
        g.traversal_spec(a),
        g.traversal_spec(b),
    ensures
        forall|k: int| 0 <= k < a.len() ==> b.contains(#[trigger] a[k]),
{
    assert forall|k: int| 0 <= k < a.len() implies b.contains(#[trigger] a[k]) by {
        lemma_traversal_prefix(g, a, b, k);
    }
}

proof fn lemma_traversal_prefix(g: ControlFlowGraph, a: Seq<Seq<char>>, b: Seq<Seq<char>>, k: int)
    requires
        g.wf(),
        g.names().len() > 0,
        g.traversal_spec(a),
        g.traversal_spec(b),
        0 <= k < a.len(),
    ensures
        b.contains(a[k]),
    decreases k,
{
    if k == 0 {
        assert(b[0] == a[0]);
    } else {
        assert(g.found_from_earlier(a, k));
        let p = choose|p: int| 0 <= p < k && #[trigger] g.succ_names(name_pos(g.names(), a[p])).contains(a[k]);
        lemma_traversal_prefix(g, a, b, p);
        let w = choose|w: int| 0 <= w < b.len() && b[w] == a[p];
        let s = choose|s: int|
            0 <= s < g.succ_names(name_pos(g.names(), a[p])).len() && g.succ_names(name_pos(g.names(), a[p]))[s] == a[k];
        assert(g.succ_names(name_pos(g.names(), b[w]))[s] == a[k]);
    }
}

} // verus!
