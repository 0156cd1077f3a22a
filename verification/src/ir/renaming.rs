use vstd::prelude::*;

use crate::ir::block::{BasicBlock, BasicBlockId};
use crate::ir::instruction::{
    defined_value, incoming_uses, operand_use, operands_uses, used_values_of, IRInstruction, IRInstructionKind,
    IROperand,
};
use crate::ir::module::IRFunction;
use crate::ir::ssa::param_names;
use crate::ir::naming::SSAValueGenerator;
use crate::ir::value::{IRValue, IRValueId};
use crate::text::{decimal, str_equal, string_from};

verus! {

// A place where an instruction names a value is a pair: `(true, name)` for
// the value it defines, `(false, name)` for a value it reads.

/// The places of an instruction, in the order renaming visits them: the
/// values it reads, then the value it defines.
pub open spec fn instr_slots(k: IRInstructionKind) -> Seq<(bool, Seq<char>)> {
    used_values_of(k).map_values(|u: Seq<char>| (false, u)) + match defined_value(k) {
        Some(d) => seq![(true, d)],
        None => Seq::empty(),
    }
}

/// The names at the places of an instruction, in the same order.
pub open spec fn instr_names(k: IRInstructionKind) -> Seq<Seq<char>> {
    used_values_of(k) + match defined_value(k) {
        Some(d) => seq![d],
        None => Seq::empty(),
    }
}

/// The places of a list of instructions, in order.
pub open spec fn instrs_slots(is: Seq<IRInstruction>) -> Seq<(bool, Seq<char>)>
    decreases is.len(),
{
    if is.len() == 0 {
        Seq::empty()
    } else {
        instrs_slots(is.drop_last()) + instr_slots(is.last().kind)
    }
}

/// The names at the places of a list of instructions, in order.
pub open spec fn instrs_names(is: Seq<IRInstruction>) -> Seq<Seq<char>>
    decreases is.len(),
{
    if is.len() == 0 {
        Seq::empty()
    } else {
        instrs_names(is.drop_last()) + instr_names(is.last().kind)
    }
}

/// The places of a list of blocks, in order.
pub open spec fn blocks_slots(bs: Seq<BasicBlock>) -> Seq<(bool, Seq<char>)>
    decreases bs.len(),
{
    if bs.len() == 0 {
        Seq::empty()
    } else {
        blocks_slots(bs.drop_last()) + instrs_slots(bs.last().instructions@)
    }
}

/// The names at the places of a list of blocks, in order.
pub open spec fn blocks_names(bs: Seq<BasicBlock>) -> Seq<Seq<char>>
    decreases bs.len(),
{
    if bs.len() == 0 {
        Seq::empty()
    } else {
        blocks_names(bs.drop_last()) + instrs_names(bs.last().instructions@)
    }
}

/// The value name `%tN`.
pub open spec fn temp_name(c: nat) -> Seq<char> {
    "%t"@ + decimal(c)
}

/// One step of renaming, from the map of new names `m` and the count `c`
/// of fresh names handed out: a read of a value already renamed gets its
/// new name; a definition, or a read of a value not renamed yet, gets the
/// next fresh name, which the map records.
pub open spec fn rename_step(s: (bool, Seq<char>), m: Map<Seq<char>, Seq<char>>, c: nat) -> (
    Seq<char>,
    Map<Seq<char>, Seq<char>>,
    nat,
) {
    if !s.0 && m.contains_key(s.1) {
        (m[s.1], m, c)
    } else {
        (temp_name(c), m.insert(s.1, temp_name(c)), c + 1)
    }
}

/// Renaming a list of places in order, from the map `m` and no fresh name
/// handed out: the new names, the final map and the count of fresh names.
pub open spec fn rename_all(ss: Seq<(bool, Seq<char>)>, m: Map<Seq<char>, Seq<char>>) -> (
    Seq<Seq<char>>,
    Map<Seq<char>, Seq<char>>,
    nat,
)
    decreases ss.len(),
{
    if ss.len() == 0 {
        (Seq::empty(), m, 0)
    } else {
        let prev = rename_all(ss.drop_last(), m);
        let st = rename_step(ss.last(), prev.1, prev.2);
        (prev.0.push(st.0), st.1, st.2)
    }
}

/// The new names of the parameters: the `i`-th parameter's name maps to
/// `%pi` (the last parameter of a name wins).
pub open spec fn param_map(ps: Seq<Seq<char>>) -> Map<Seq<char>, Seq<char>>
    decreases ps.len(),
{
    if ps.len() == 0 {
        Map::empty()
    } else {
        param_map(ps.drop_last()).insert(ps.last(), "%p"@ + decimal((ps.len() - 1) as nat))
    }
}

/// Two operands that differ at most in the value they read.
pub open spec fn same_operand(a: IROperand, b: IROperand) -> bool {
    match a {
        IROperand::Value(_) => b is Value,
        _ => b == a,
    }
}

/// Two instructions that differ at most in the names of the values they
/// read and define.
pub open spec fn same_shape(a: IRInstructionKind, b: IRInstructionKind) -> bool {
    match (a, b) {
        (
            IRInstructionKind::Assign { value: v1, original: o1, .. },
            IRInstructionKind::Assign { value: v2, original: o2, .. },
        ) => same_operand(v1, v2) && o1 == o2,
        (
            IRInstructionKind::Binary { op: p1, left: l1, right: r1, .. },
            IRInstructionKind::Binary { op: p2, left: l2, right: r2, .. },
        ) => p1 == p2 && same_operand(l1, l2) && same_operand(r1, r2),
        (
            IRInstructionKind::Unary { op: p1, operand: o1, .. },
            IRInstructionKind::Unary { op: p2, operand: o2, .. },
        ) => p1 == p2 && same_operand(o1, o2),
        (
            IRInstructionKind::Phi { incoming: i1, original: o1, .. },
            IRInstructionKind::Phi { incoming: i2, original: o2, .. },
        ) => {
            &&& i1@.len() == i2@.len()
            &&& forall|k: int| 0 <= k < i1@.len() ==> (#[trigger] i1@[k]).1 == i2@[k].1
            &&& o1 == o2
        },
        (IRInstructionKind::Jump { target: t1 }, IRInstructionKind::Jump { target: t2 }) => t1 == t2,
        (
            IRInstructionKind::Branch { condition: c1, then_block: t1, else_block: e1 },
            IRInstructionKind::Branch { condition: c2, then_block: t2, else_block: e2 },
        ) => same_operand(c1, c2) && t1 == t2 && e1 == e2,
        (IRInstructionKind::Return(r1), IRInstructionKind::Return(r2)) => match (r1, r2) {
            (Some(x1), Some(x2)) => same_operand(x1, x2),
            (None, None) => true,
            _ => false,
        },
        (
            IRInstructionKind::Call { target: t1, callee: c1, arguments: a1, original: o1 },
            IRInstructionKind::Call { target: t2, callee: c2, arguments: a2, original: o2 },
        ) => {
            &&& t1 is Some == t2 is Some
            &&& c1 == c2
            &&& a1@.len() == a2@.len()
            &&& forall|k: int| 0 <= k < a1@.len() ==> same_operand(#[trigger] a1@[k], a2@[k])
            &&& o1 == o2
        },
        (IRInstructionKind::Nop, IRInstructionKind::Nop) => true,
        _ => false,
    }
}

/// The map a list of entries stands for: each entry maps its first name to
/// its second, a later entry overriding an earlier one.
pub open spec fn as_map(es: Seq<(String, String)>) -> Map<Seq<char>, Seq<char>>
    decreases es.len(),
{
    if es.len() == 0 {
        Map::empty()
    } else {
        as_map(es.drop_last()).insert(es.last().0@, es.last().1@)
    }
}

proof fn lemma_as_map_tail(es: Seq<(String, String)>, i: int, key: Seq<char>)
    requires
        0 <= i <= es.len(),
        forall|q: int| i <= q < es.len() ==> (#[trigger] es[q]).0@ != key,
    ensures
        as_map(es).contains_key(key) == as_map(es.take(i)).contains_key(key),
        as_map(es).contains_key(key) ==> as_map(es)[key] == as_map(es.take(i))[key],
    decreases es.len(),
{
    if i < es.len() {
        assert(es.drop_last().take(i) =~= es.take(i));
        assert(es.last() == es[es.len() - 1]);
        lemma_as_map_tail(es.drop_last(), i, key);
    } else {
        assert(es.take(i) =~= es);
    }
}

/// The new name of `key`, if it has one.
fn map_lookup(es: &Vec<(String, String)>, key: &str) -> (r: Option<String>)
    ensures
        match r {
            Some(v) => as_map(es@).contains_key(key@) && v@ == as_map(es@)[key@],
            None => !as_map(es@).contains_key(key@),
        },
{
    let mut i: usize = es.len();
    while i > 0
        invariant
            0 <= i <= es@.len(),
            forall|q: int| i <= q < es@.len() ==> (#[trigger] es@[q]).0@ != key@,
        decreases i,
    {
        i = i - 1;
        if str_equal(es[i].0.as_str(), key) {
            proof {
                lemma_as_map_tail(es@, i + 1, key@);
                assert(es@.take(i + 1).drop_last() =~= es@.take(i as int));
            }
            return Some(string_from(es[i].1.as_str()));
        }
    }
    proof {
        lemma_as_map_tail(es@, 0, key@);
    }
    None
}

/// Records `key -> value`.
fn map_insert(es: &mut Vec<(String, String)>, key: String, value: String)
    ensures
        as_map(final(es)@) == as_map(old(es)@).insert(key@, value@),
{
    es.push((key, value));
    proof {
        assert(es@.drop_last() =~= old(es)@);
    }
}

proof fn lemma_rename_push(ss: Seq<(bool, Seq<char>)>, x: (bool, Seq<char>), m: Map<Seq<char>, Seq<char>>)
    ensures
        rename_all(ss.push(x), m) == ({
            let prev = rename_all(ss, m);
            let st = rename_step(x, prev.1, prev.2);
            (prev.0.push(st.0), st.1, st.2)
        }),
{
    assert(ss.push(x).drop_last() =~= ss);
}

proof fn lemma_rename_count(ss: Seq<(bool, Seq<char>)>, m: Map<Seq<char>, Seq<char>>)
    ensures
        rename_all(ss, m).2 <= ss.len(),
    decreases ss.len(),
{
    if ss.len() > 0 {
        lemma_rename_count(ss.drop_last(), m);
    }
}

/// The new name of a value read.
fn rename_use(
    id: IRValueId,
    es: &mut Vec<(String, String)>,
    g: &mut SSAValueGenerator,
    Ghost(done): Ghost<Seq<(bool, Seq<char>)>>,
    Ghost(m0): Ghost<Map<Seq<char>, Seq<char>>>,
) -> (r: IRValueId)
    requires
        rename_all(done, m0).1 == as_map(old(es)@),
        rename_all(done, m0).2 == old(g).values_issued(),
        done.len() < usize::MAX,
    ensures
        rename_all(done.push((false, id.0@)), m0) == (
            rename_all(done, m0).0.push(r.0@),
            as_map(final(es)@),
            final(g).values_issued(),
        ),
{
    proof {
        lemma_rename_push(done, (false, id.0@), m0);
        lemma_rename_count(done, m0);
    }
    match map_lookup(es, id.0.as_str()) {
        Some(v) => IRValueId::new(v),
        None => {
            let t = g.next_value();
            map_insert(es, id.0, string_from(t.as_str()));
            IRValueId::new(t)
        },
    }
}

/// The new name of a value defined.
fn rename_def(
    id: IRValueId,
    es: &mut Vec<(String, String)>,
    g: &mut SSAValueGenerator,
    Ghost(done): Ghost<Seq<(bool, Seq<char>)>>,
    Ghost(m0): Ghost<Map<Seq<char>, Seq<char>>>,
) -> (r: IRValueId)
    requires
        rename_all(done, m0).1 == as_map(old(es)@),
        rename_all(done, m0).2 == old(g).values_issued(),
        done.len() < usize::MAX,
    ensures
        rename_all(done.push((true, id.0@)), m0) == (
            rename_all(done, m0).0.push(r.0@),
            as_map(final(es)@),
            final(g).values_issued(),
        ),
{
    proof {
        lemma_rename_push(done, (true, id.0@), m0);
        lemma_rename_count(done, m0);
    }
    let t = g.next_value();
    map_insert(es, id.0, string_from(t.as_str()));
    IRValueId::new(t)
}

/// The places an operand reads.
pub open spec fn operand_slots(o: IROperand) -> Seq<(bool, Seq<char>)> {
    operand_use(o).map_values(|u: Seq<char>| (false, u))
}

/// An operand with the value it reads renamed.
fn remap_operand(
    op: IROperand,
    es: &mut Vec<(String, String)>,
    g: &mut SSAValueGenerator,
    Ghost(done): Ghost<Seq<(bool, Seq<char>)>>,
    Ghost(m0): Ghost<Map<Seq<char>, Seq<char>>>,
) -> (r: IROperand)
    requires
        rename_all(done, m0).1 == as_map(old(es)@),
        rename_all(done, m0).2 == old(g).values_issued(),
        done.len() < usize::MAX,
    ensures
        same_operand(op, r),
        rename_all(done + operand_slots(op), m0) == (
            rename_all(done, m0).0 + operand_use(r),
            as_map(final(es)@),
            final(g).values_issued(),
        ),
{
    match op {
        IROperand::Value(id) => {
            let ghost name = id.0@;
            let r = rename_use(id, es, g, Ghost(done), Ghost(m0));
            proof {
                assert(done + operand_slots(IROperand::Value(id)) =~= done.push((false, name)));
                assert(rename_all(done, m0).0 + operand_use(IROperand::Value(r)) =~= rename_all(done, m0).0.push(
                    r.0@,
                ));
            }
            IROperand::Value(r)
        },
        other => {
            proof {
                assert(done + operand_slots(other) =~= done);
                assert(rename_all(done, m0).0 + operand_use(other) =~= rename_all(done, m0).0);
            }
            other
        },
    }
}

/// The places a value-reading list of operands reads.
pub open spec fn reads(names: Seq<Seq<char>>) -> Seq<(bool, Seq<char>)> {
    names.map_values(|u: Seq<char>| (false, u))
}

proof fn lemma_reads_concat(a: Seq<Seq<char>>, b: Seq<Seq<char>>)
    ensures
        reads(a + b) == reads(a) + reads(b),
{
    assert(reads(a + b) =~= reads(a) + reads(b));
}

/// An instruction with the values it reads, then the value it defines,
/// renamed.
fn rename_kind(
    k: IRInstructionKind,
    es: &mut Vec<(String, String)>,
    g: &mut SSAValueGenerator,
    Ghost(done): Ghost<Seq<(bool, Seq<char>)>>,
    Ghost(m0): Ghost<Map<Seq<char>, Seq<char>>>,
) -> (r: IRInstructionKind)
    requires
        rename_all(done, m0).1 == as_map(old(es)@),
        rename_all(done, m0).2 == old(g).values_issued(),
        done.len() + instr_slots(k).len() < usize::MAX,
    ensures
        same_shape(k, r),
        rename_all(done + instr_slots(k), m0) == (
            rename_all(done, m0).0 + instr_names(r),
            as_map(final(es)@),
            final(g).values_issued(),
        ),
{
    let ghost base = rename_all(done, m0).0;
    let ghost k0 = k;
    match k {
        IRInstructionKind::Assign { target, value, original } => {
            let ghost v0 = value;
            let ghost t0 = target.0@;
            let value = remap_operand(value, es, g, Ghost(done), Ghost(m0));
            let ghost d1 = done + operand_slots(v0);
            let target = rename_def(target, es, g, Ghost(d1), Ghost(m0));
            let r = IRInstructionKind::Assign { target, value, original };
            proof {
                assert(done + instr_slots(k0) =~= d1.push((true, t0)));
                assert(base + instr_names(r) =~= (base + operand_use(value)).push(target.0@));
            }
            r
        },
        IRInstructionKind::Binary { target, op, left, right } => {
            let ghost l0 = left;
            let ghost r0 = right;
            let ghost t0 = target.0@;
            let left = remap_operand(left, es, g, Ghost(done), Ghost(m0));
            let ghost d1 = done + operand_slots(l0);
            let right = remap_operand(right, es, g, Ghost(d1), Ghost(m0));
            let ghost d2 = d1 + operand_slots(r0);
            let target = rename_def(target, es, g, Ghost(d2), Ghost(m0));
            let r = IRInstructionKind::Binary { target, op, left, right };
            proof {
                lemma_reads_concat(operand_use(l0), operand_use(r0));
                assert(done + instr_slots(k0) =~= d2.push((true, t0)));
                assert(base + instr_names(r) =~= ((base + operand_use(left)) + operand_use(right)).push(target.0@));
            }
            r
        },
        IRInstructionKind::Unary { target, op, operand } => {
            let ghost o0 = operand;
            let ghost t0 = target.0@;
            let operand = remap_operand(operand, es, g, Ghost(done), Ghost(m0));
            let ghost d1 = done + operand_slots(o0);
            let target = rename_def(target, es, g, Ghost(d1), Ghost(m0));
            let r = IRInstructionKind::Unary { target, op, operand };
            proof {
                assert(done + instr_slots(k0) =~= d1.push((true, t0)));
                assert(base + instr_names(r) =~= (base + operand_use(operand)).push(target.0@));
            }
            r
        },
        IRInstructionKind::Phi { .. } => rename_phi(k, es, g, Ghost(done), Ghost(m0)),
        IRInstructionKind::Jump { target } => {
            let r = IRInstructionKind::Jump { target };
            proof {
                assert(done + instr_slots(k0) =~= done);
                assert(base + instr_names(r) =~= base);
            }
            r
        },
        IRInstructionKind::Branch { condition, then_block, else_block } => {
            let ghost c0 = condition;
            let condition = remap_operand(condition, es, g, Ghost(done), Ghost(m0));
            let r = IRInstructionKind::Branch { condition, then_block, else_block };
            proof {
                assert(done + instr_slots(k0) =~= done + operand_slots(c0));
                assert(base + instr_names(r) =~= base + operand_use(condition));
            }
            r
        },
        IRInstructionKind::Return(o) => {
            match o {
                Some(op) => {
                    let ghost o0 = op;
                    let op = remap_operand(op, es, g, Ghost(done), Ghost(m0));
                    let r = IRInstructionKind::Return(Some(op));
                    proof {
                        assert(done + instr_slots(k0) =~= done + operand_slots(o0));
                        assert(base + instr_names(r) =~= base + operand_use(op));
                    }
                    r
                },
                None => {
                    let r = IRInstructionKind::Return(None);
                    proof {
                        assert(done + instr_slots(k0) =~= done);
                        assert(base + instr_names(r) =~= base);
                    }
                    r
                },
            }
        },
        IRInstructionKind::Call { .. } => rename_call(k, es, g, Ghost(done), Ghost(m0)),
        IRInstructionKind::Nop => {
            let r = IRInstructionKind::Nop;
            proof {
                assert(done + instr_slots(k0) =~= done);
                assert(base + instr_names(r) =~= base);
            }
            r
        },
    }
}

/// A phi node with the values it reads, then the value it defines, renamed.
fn rename_phi(
    k: IRInstructionKind,
    es: &mut Vec<(String, String)>,
    g: &mut SSAValueGenerator,
    Ghost(done): Ghost<Seq<(bool, Seq<char>)>>,
    Ghost(m0): Ghost<Map<Seq<char>, Seq<char>>>,
) -> (r: IRInstructionKind)
    requires
        k is Phi,
        rename_all(done, m0).1 == as_map(old(es)@),
        rename_all(done, m0).2 == old(g).values_issued(),
        done.len() + instr_slots(k).len() < usize::MAX,
    ensures
        same_shape(k, r),
        rename_all(done + instr_slots(k), m0) == (
            rename_all(done, m0).0 + instr_names(r),
            as_map(final(es)@),
            final(g).values_issued(),
        ),
{
    let ghost base = rename_all(done, m0).0;
    let ghost k0 = k;
    match k {
        IRInstructionKind::Phi { target, incoming, original } => {
            let ghost inc0 = incoming@;
            let ghost t0 = target.0@;
            let mut rest = incoming;
            let mut out: Vec<(IRValueId, BasicBlockId)> = Vec::new();
            let ghost mut dq = done;
            while rest.len() > 0
                invariant
                    out@.len() + rest@.len() == inc0.len(),
                    rest@ == inc0.skip(out@.len() as int),
                    forall|q: int| 0 <= q < out@.len() ==> (#[trigger] out@[q]).1 == inc0[q].1,
                    dq == done + reads(incoming_uses(inc0.take(out@.len() as int))),
                    done.len() + inc0.len() + 1 < usize::MAX,
                    rename_all(dq, m0) == (base + incoming_uses(out@), as_map(es@), g.values_issued()),
                decreases rest@.len(),
            {
                let ghost q = out@.len() as int;
                let (v, b) = rest.remove(0);
                assert(inc0[q] == (v, b));
                let ghost name = v.0@;
                let nv = rename_use(v, es, g, Ghost(dq), Ghost(m0));
                let ghost nname = nv.0@;
                let ghost out_before = out@;
                out.push((nv, b));
                proof {
                    assert(incoming_uses(inc0.take(q + 1)) =~= incoming_uses(inc0.take(q)).push(name));
                    lemma_reads_concat(incoming_uses(inc0.take(q)), seq![name]);
                    assert(dq.push((false, name)) =~= done + reads(incoming_uses(inc0.take(q + 1))));
                    assert(incoming_uses(out@) =~= incoming_uses(out@.drop_last()).push(nname));
                    assert(out@.drop_last() =~= out_before);
                    dq = dq.push((false, name));
                    assert(rest@ =~= inc0.skip(out@.len() as int));
                }
            }
            proof {
                assert(inc0.take(out@.len() as int) =~= inc0);
            }
            let ghost d1 = dq;
            let target = rename_def(target, es, g, Ghost(d1), Ghost(m0));
            let r = IRInstructionKind::Phi { target, incoming: out, original };
            proof {
                assert(done + instr_slots(k0) =~= d1.push((true, t0)));
                assert(base + instr_names(r) =~= (base + incoming_uses(out@)).push(target.0@));
            }
            r
        },
        other => {
            proof {
                assert(false);
            }
            other
        },
    }
}

/// A call with its arguments, then the value it defines, renamed.
fn rename_call(
    k: IRInstructionKind,
    es: &mut Vec<(String, String)>,
    g: &mut SSAValueGenerator,
    Ghost(done): Ghost<Seq<(bool, Seq<char>)>>,
    Ghost(m0): Ghost<Map<Seq<char>, Seq<char>>>,
) -> (r: IRInstructionKind)
    requires
        k is Call,
        rename_all(done, m0).1 == as_map(old(es)@),
        rename_all(done, m0).2 == old(g).values_issued(),
        done.len() + instr_slots(k).len() < usize::MAX,
    ensures
        same_shape(k, r),
        rename_all(done + instr_slots(k), m0) == (
            rename_all(done, m0).0 + instr_names(r),
            as_map(final(es)@),
            final(g).values_issued(),
        ),
{
    let ghost base = rename_all(done, m0).0;
    let ghost k0 = k;
    match k {
        IRInstructionKind::Call { target, callee, arguments, original } => {
            let ghost a0 = arguments@;
            let mut rest = arguments;
            let mut out: Vec<IROperand> = Vec::new();
            let ghost mut dq = done;
            proof {
                assert(operands_uses(a0.take(0)) =~= Seq::<Seq<char>>::empty());
                assert(done + reads(Seq::<Seq<char>>::empty()) =~= done);
                assert(base + operands_uses(out@) =~= base);
                lemma_operands_uses_len(a0);
            }
            while rest.len() > 0
                invariant
                    out@.len() + rest@.len() == a0.len(),
                    rest@ == a0.skip(out@.len() as int),
                    forall|q: int| 0 <= q < out@.len() ==> same_operand(a0[q], #[trigger] out@[q]),
                    dq == done + reads(operands_uses(a0.take(out@.len() as int))),
                    operands_uses(a0.take(out@.len() as int)).len() <= operands_uses(a0).len(),
                    done.len() + operands_uses(a0).len() < usize::MAX,
                    rename_all(dq, m0) == (base + operands_uses(out@), as_map(es@), g.values_issued()),
                decreases rest@.len(),
            {
                let ghost q = out@.len() as int;
                let op = rest.remove(0);
                assert(a0[q] == op);
                proof {
                    lemma_operands_uses_len(a0);
                }
                let ghost o0 = op;
                let nop = remap_operand(op, es, g, Ghost(dq), Ghost(m0));
                let ghost out_before = out@;
                out.push(nop);
                proof {
                    assert(a0.take(q + 1).drop_last() =~= a0.take(q));
                    assert(operands_uses(a0.take(q + 1)) == operands_uses(a0.take(q)) + operand_use(o0));
                    lemma_reads_concat(operands_uses(a0.take(q)), operand_use(o0));
                    assert(dq + operand_slots(o0) =~= done + reads(operands_uses(a0.take(q + 1))));
                    assert(out@.drop_last() =~= out_before);
                    assert(operands_uses(out@) == operands_uses(out@.drop_last()) + operand_use(nop));
                    assert(base + operands_uses(out@) =~= (base + operands_uses(out@.drop_last())) + operand_use(nop));
                    dq = dq + operand_slots(o0);
                    assert(rest@ =~= a0.skip(out@.len() as int));
                }
            }
            proof {
                assert(a0.take(out@.len() as int) =~= a0);
            }
            let ghost d1 = dq;
            match target {
                Some(t) => {
                    let ghost t0 = t.0@;
                    let t = rename_def(t, es, g, Ghost(d1), Ghost(m0));
                    let r = IRInstructionKind::Call { target: Some(t), callee, arguments: out, original };
                    proof {
                        assert(done + instr_slots(k0) =~= d1.push((true, t0)));
                        assert(base + instr_names(r) =~= (base + operands_uses(out@)).push(t.0@));
                    }
                    r
                },
                None => {
                    let r = IRInstructionKind::Call { target: None, callee, arguments: out, original };
                    proof {
                        assert(done + instr_slots(k0) =~= d1);
                        assert(base + instr_names(r) =~= base + operands_uses(out@));
                    }
                    r
                },
            }
        },
        other => {
            proof {
                assert(false);
            }
            other
        },
    }
}

proof fn lemma_operands_uses_len(os: Seq<IROperand>)
    ensures
        forall|q: int| 0 <= q <= os.len() ==> #[trigger] operands_uses(os.take(q)).len() <= operands_uses(os).len(),
    decreases os.len(),
{
    if os.len() > 0 {
        lemma_operands_uses_len(os.drop_last());
        assert forall|q: int| 0 <= q <= os.len() implies #[trigger] operands_uses(os.take(q)).len() <= operands_uses(
            os,
        ).len() by {
            if q < os.len() {
                assert(os.take(q) =~= os.drop_last().take(q));
                assert(os.drop_last().take(os.drop_last().len() as int) =~= os.drop_last());
            } else {
                assert(os.take(q) =~= os);
            }
        }
    } else {
        assert forall|q: int| 0 <= q <= os.len() implies #[trigger] operands_uses(os.take(q)).len() <= operands_uses(
            os,
        ).len() by {
            assert(os.take(q) =~= os);
        }
    }
}

proof fn lemma_instrs_slots_prefix(is: Seq<IRInstruction>)
    ensures
        forall|q: int| 0 <= q <= is.len() ==> #[trigger] instrs_slots(is.take(q)).len() <= instrs_slots(is).len(),
    decreases is.len(),
{
    if is.len() > 0 {
        lemma_instrs_slots_prefix(is.drop_last());
        assert(is.drop_last().take(is.drop_last().len() as int) =~= is.drop_last());
    }
    assert forall|q: int| 0 <= q <= is.len() implies #[trigger] instrs_slots(is.take(q)).len() <= instrs_slots(
        is,
    ).len() by {
        if q < is.len() {
            assert(is.take(q) =~= is.drop_last().take(q));
        } else {
            assert(is.take(q) =~= is);
        }
    }
}

proof fn lemma_blocks_slots_prefix(bs: Seq<BasicBlock>)
    ensures
        forall|q: int| 0 <= q <= bs.len() ==> #[trigger] blocks_slots(bs.take(q)).len() <= blocks_slots(bs).len(),
    decreases bs.len(),
{
    if bs.len() > 0 {
        lemma_blocks_slots_prefix(bs.drop_last());
        assert(bs.drop_last().take(bs.drop_last().len() as int) =~= bs.drop_last());
    }
    assert forall|q: int| 0 <= q <= bs.len() implies #[trigger] blocks_slots(bs.take(q)).len() <= blocks_slots(
        bs,
    ).len() by {
        if q < bs.len() {
            assert(bs.take(q) =~= bs.drop_last().take(q));
        } else {
            assert(bs.take(q) =~= bs);
        }
    }
}

/// Whether `f1` is `f0` renamed into single-assignment form: the `i`-th
/// parameter is named `%pi`; then, through the blocks and their
/// instructions in order, each value read takes the newest name given to it
/// (or a fresh one if it has none yet), and each value defined gets a fresh
/// name `%tN`, numbered from 0; nothing else changes.
pub open spec fn ssa_renamed(f0: IRFunction, f1: IRFunction) -> bool {
    &&& f1.name == f0.name
    &&& f1.return_type == f0.return_type
    &&& f1.parameters@.len() == f0.parameters@.len()
    &&& forall|i: int|
        0 <= i < f0.parameters@.len() ==> {
            let np = #[trigger] f1.parameters@[i];
            let op = f0.parameters@[i];
            &&& np.id.0@ == "%p"@ + decimal(i as nat)
            &&& np.kind == op.kind
            &&& np.ty == op.ty
            &&& np.span == op.span
            &&& np.dependencies == op.dependencies
        }
    &&& f1.blocks@.len() == f0.blocks@.len()
    &&& forall|b: int|
        0 <= b < f0.blocks@.len() ==> {
            let nb = #[trigger] f1.blocks@[b];
            let ob = f0.blocks@[b];
            &&& nb.id == ob.id
            &&& nb.predecessors == ob.predecessors
            &&& nb.successors == ob.successors
            &&& nb.instructions@.len() == ob.instructions@.len()
            &&& forall|j: int|
                0 <= j < ob.instructions@.len() ==> same_shape(
                    ob.instructions@[j].kind,
                    #[trigger] nb.instructions@[j].kind,
                )
        }
    &&& blocks_names(f1.blocks@) == rename_all(blocks_slots(f0.blocks@), param_map(param_names(f0))).0
}

/// Renames the values of `f` into single-assignment form (see
/// `ssa_renamed`).
pub(crate) fn renaming_for_function(f: &mut IRFunction)
    requires
        blocks_slots(old(f).blocks@).len() < usize::MAX,
    ensures
        ssa_renamed(*old(f), *final(f)),
{
    let ghost f0 = *f;
    let ghost pn = param_names(f0);
    let ghost m0 = param_map(pn);
    let mut g = SSAValueGenerator::new();
    let mut es: Vec<(String, String)> = Vec::new();
    let mut params: Vec<IRValue> = Vec::new();
    std::mem::swap(&mut params, &mut f.parameters);
    let ghost ps0 = params@;
    let plen = params.len();
    let mut new_params: Vec<IRValue> = Vec::new();
    proof {
        assert(pn.take(0) =~= Seq::<Seq<char>>::empty());
    }
    while params.len() > 0
        invariant
            ps0 == f0.parameters@,
            ps0.len() == plen,
            pn == param_names(f0),
            new_params@.len() + params@.len() == ps0.len(),
            params@ == ps0.skip(new_params@.len() as int),
            g.parameters_issued() == new_params@.len(),
            g.values_issued() == 0,
            as_map(es@) == param_map(pn.take(new_params@.len() as int)),
            forall|i: int|
                0 <= i < new_params@.len() ==> {
                    let np = #[trigger] new_params@[i];
                    let op = ps0[i];
                    &&& np.id.0@ == "%p"@ + decimal(i as nat)
                    &&& np.kind == op.kind
                    &&& np.ty == op.ty
                    &&& np.span == op.span
                    &&& np.dependencies == op.dependencies
                },
        decreases params@.len(),
    {
        let ghost k = new_params@.len() as int;
        let p = params.remove(0);
        assert(ps0[k] == p);
        let IRValue { id, kind, ty, span, dependencies } = p;
        let ghost old_name = id.0@;
        let fresh = g.next_parameter();
        map_insert(&mut es, id.0, string_from(fresh.as_str()));
        new_params.push(IRValue { id: IRValueId::new(fresh), kind, ty, span, dependencies });
        proof {
            assert(pn[k] == old_name);
            assert(pn.take(k + 1).drop_last() =~= pn.take(k));
            assert(params@ =~= ps0.skip(new_params@.len() as int));
        }
    }
    proof {
        assert(pn.take(new_params@.len() as int) =~= pn);
    }
    f.parameters = new_params;
    let mut blocks: Vec<BasicBlock> = Vec::new();
    std::mem::swap(&mut blocks, &mut f.blocks);
    let ghost bs0 = blocks@;
    let mut new_blocks: Vec<BasicBlock> = Vec::new();
    proof {
        lemma_blocks_slots_prefix(bs0);
        assert(bs0.take(0) =~= Seq::<BasicBlock>::empty());
    }
    while blocks.len() > 0
        invariant
            bs0 == f0.blocks@,
            blocks_slots(bs0).len() < usize::MAX,
            forall|q: int| 0 <= q <= bs0.len() ==> #[trigger] blocks_slots(bs0.take(q)).len() <= blocks_slots(bs0).len(),
            new_blocks@.len() + blocks@.len() == bs0.len(),
            blocks@ == bs0.skip(new_blocks@.len() as int),
            forall|b: int|
                0 <= b < new_blocks@.len() ==> {
                    let nb = #[trigger] new_blocks@[b];
                    let ob = bs0[b];
                    &&& nb.id == ob.id
                    &&& nb.predecessors == ob.predecessors
                    &&& nb.successors == ob.successors
                    &&& nb.instructions@.len() == ob.instructions@.len()
                    &&& forall|j: int|
                        0 <= j < ob.instructions@.len() ==> same_shape(
                            ob.instructions@[j].kind,
                            #[trigger] nb.instructions@[j].kind,
                        )
                },
            rename_all(blocks_slots(bs0.take(new_blocks@.len() as int)), m0) == (
                blocks_names(new_blocks@),
                as_map(es@),
                g.values_issued(),
            ),
        decreases blocks@.len(),
    {
        let ghost bi = new_blocks@.len() as int;
        let blk = blocks.remove(0);
        assert(bs0[bi] == blk);
        let BasicBlock { id, instructions, predecessors, successors } = blk;
        let ghost is0 = instructions@;
        let ghost before = blocks_slots(bs0.take(bi));
        let ghost names_before = blocks_names(new_blocks@);
        let mut rest = instructions;
        let mut out: Vec<IRInstruction> = Vec::new();
        proof {
            lemma_instrs_slots_prefix(is0);
            assert(bs0.take(bi + 1).drop_last() =~= bs0.take(bi));
            assert(blocks_slots(bs0.take(bi + 1)) == before + instrs_slots(is0));
            assert(is0.take(0) =~= Seq::<IRInstruction>::empty());
            assert(before + instrs_slots(is0.take(0)) =~= before);
            assert(names_before + instrs_names(out@) =~= names_before);
        }
        while rest.len() > 0
            invariant
                out@.len() + rest@.len() == is0.len(),
                rest@ == is0.skip(out@.len() as int),
                (before + instrs_slots(is0)).len() < usize::MAX,
                forall|q: int| 0 <= q <= is0.len() ==> #[trigger] instrs_slots(is0.take(q)).len() <= instrs_slots(is0).len(),
                forall|j: int| 0 <= j < out@.len() ==> same_shape(is0[j].kind, #[trigger] out@[j].kind),
                rename_all(before + instrs_slots(is0.take(out@.len() as int)), m0) == (
                    names_before + instrs_names(out@),
                    as_map(es@),
                    g.values_issued(),
                ),
            decreases rest@.len(),
        {
            let ghost j = out@.len() as int;
            let instr = rest.remove(0);
            assert(is0[j] == instr);
            let IRInstruction { kind } = instr;
            let ghost k0 = kind;
            let ghost done = before + instrs_slots(is0.take(j));
            proof {
                assert(is0.take(j + 1).drop_last() =~= is0.take(j));
                assert(instrs_slots(is0.take(j + 1)) == instrs_slots(is0.take(j)) + instr_slots(k0));
            }
            let nk = rename_kind(kind, &mut es, &mut g, Ghost(done), Ghost(m0));
            let ghost out_before = out@;
            out.push(IRInstruction { kind: nk });
            proof {
                assert(done + instr_slots(k0) =~= before + instrs_slots(is0.take(j + 1)));
                assert(out@.drop_last() =~= out_before);
                assert(instrs_names(out@) == instrs_names(out_before) + instr_names(nk));
                assert(names_before + instrs_names(out@) =~= (names_before + instrs_names(out_before)) + instr_names(nk));
                assert(rest@ =~= is0.skip(out@.len() as int));
            }
        }
        proof {
            assert(is0.take(out@.len() as int) =~= is0);
        }
        let ghost nb_before = new_blocks@;
        new_blocks.push(BasicBlock { id, instructions: out, predecessors, successors });
        proof {
            assert(new_blocks@.drop_last() =~= nb_before);
            assert(blocks_names(new_blocks@) == blocks_names(nb_before) + instrs_names(out@));
            assert(blocks@ =~= bs0.skip(new_blocks@.len() as int));
        }
    }
    proof {
        assert(bs0.take(new_blocks@.len() as int) =~= bs0);
    }
    f.blocks = new_blocks;
}

/// The names `ns` gives to the definition places of `ss`, in order.
pub open spec fn def_names(ss: Seq<(bool, Seq<char>)>, ns: Seq<Seq<char>>) -> Seq<Seq<char>>
    decreases ss.len(),
{
    if ss.len() == 0 || ns.len() == 0 {
        Seq::empty()
    } else {
        def_names(ss.drop_last(), ns.drop_last()) + if ss.last().0 {
            seq![ns.last()]
        } else {
            Seq::empty()
        }
    }
}

/// Whether `name` is one of the first `c` fresh names.
pub open spec fn fresh_below(name: Seq<char>, c: nat) -> bool {
    exists|j: nat| j < c && name == temp_name(j)
}

proof fn lemma_decimal_nonempty(n: nat)
    ensures
        decimal(n).len() >= 1,
    decreases n,
{
    if n >= 10 {
        lemma_decimal_nonempty(n / 10);
    }
}

proof fn lemma_digit_injective(a: nat, b: nat)
    requires
        a < 10,
        b < 10,
        crate::text::digit_char(a) == crate::text::digit_char(b),
    ensures
        a == b,
{
}

/// Different numbers are written differently.
proof fn lemma_decimal_injective(a: nat, b: nat)
    requires
        decimal(a) == decimal(b),
    ensures
        a == b,
    decreases a,
{
    if a < 10 && b < 10 {
        assert(decimal(a)[0] == crate::text::digit_char(a));
        assert(decimal(b)[0] == crate::text::digit_char(b));
        lemma_digit_injective(a, b);
    } else if a < 10 {
        lemma_decimal_nonempty(b / 10);
        assert(decimal(b).len() >= 2);
    } else if b < 10 {
        lemma_decimal_nonempty(a / 10);
        assert(decimal(a).len() >= 2);
    } else {
        let da = decimal(a / 10);
        let db = decimal(b / 10);
        assert(decimal(a) == da.push(crate::text::digit_char(a % 10)));
        assert(decimal(b) == db.push(crate::text::digit_char(b % 10)));
        assert(da.push(crate::text::digit_char(a % 10)).last() == db.push(crate::text::digit_char(b % 10)).last());
        lemma_digit_injective(a % 10, b % 10);
        assert(da =~= da.push(crate::text::digit_char(a % 10)).drop_last());
        assert(db =~= db.push(crate::text::digit_char(b % 10)).drop_last());
        lemma_decimal_injective(a / 10, b / 10);
    }
}

proof fn lemma_temp_name_injective(a: nat, b: nat)
    requires
        temp_name(a) == temp_name(b),
    ensures
        a == b,
{
    let p = "%t"@;
    assert(p.len() == 2) by {
        reveal_strlit("%t");
    }
    assert(decimal(a) =~= temp_name(a).subrange(2, temp_name(a).len() as int));
    assert(decimal(b) =~= temp_name(b).subrange(2, temp_name(b).len() as int));
    lemma_decimal_injective(a, b);
}

/// Renaming gives every definition place a fresh name of its own.
proof fn lemma_rename_defs(ss: Seq<(bool, Seq<char>)>, m: Map<Seq<char>, Seq<char>>)
    ensures
        rename_all(ss, m).0.len() == ss.len(),
        def_names(ss, rename_all(ss, m).0).no_duplicates(),
        forall|k: int|
            0 <= k < def_names(ss, rename_all(ss, m).0).len() ==> fresh_below(
                #[trigger] def_names(ss, rename_all(ss, m).0)[k],
                rename_all(ss, m).2,
            ),
    decreases ss.len(),
{
    if ss.len() > 0 {
        let prev = rename_all(ss.drop_last(), m);
        lemma_rename_defs(ss.drop_last(), m);
        let r = rename_all(ss, m);
        assert(r.0.drop_last() =~= prev.0);
        let old_defs = def_names(ss.drop_last(), prev.0);
        let st = rename_step(ss.last(), prev.1, prev.2);
        assert(st.2 >= prev.2);
        if ss.last().0 {
            let t = temp_name(prev.2);
            assert(def_names(ss, r.0) == old_defs.push(t));
            if old_defs.contains(t) {
                let k = choose|k: int| 0 <= k < old_defs.len() && old_defs[k] == t;
                assert(fresh_below(old_defs[k], prev.2));
                let j = choose|j: nat| j < prev.2 && old_defs[k] == temp_name(j);
                lemma_temp_name_injective(j, prev.2);
            }
            crate::ir::module::lemma_push_no_duplicates(old_defs, t);
            assert forall|k: int| 0 <= k < def_names(ss, r.0).len() implies fresh_below(
                #[trigger] def_names(ss, r.0)[k],
                r.2,
            ) by {
                if k < old_defs.len() {
                    let j = choose|j: nat| j < prev.2 && old_defs[k] == temp_name(j);
                    assert(j < r.2);
                } else {
                    assert(def_names(ss, r.0)[k] == temp_name(prev.2));
                    assert(prev.2 < r.2);
                }
            }
        } else {
            assert(def_names(ss, r.0) =~= old_defs);
            assert forall|k: int| 0 <= k < def_names(ss, r.0).len() implies fresh_below(
                #[trigger] def_names(ss, r.0)[k],
                r.2,
            ) by {
                let j = choose|j: nat| j < prev.2 && old_defs[k] == temp_name(j);
                assert(j < r.2);
            }
        }
    }
}

proof fn lemma_def_names_concat(a: Seq<(bool, Seq<char>)>, na: Seq<Seq<char>>, b: Seq<(bool, Seq<char>)>, nb: Seq<Seq<char>>)
    requires
        a.len() == na.len(),
        b.len() == nb.len(),
    ensures
        def_names(a + b, na + nb) == def_names(a, na) + def_names(b, nb),
    decreases b.len(),
{
    if b.len() == 0 {
        assert(a + b =~= a);
        assert(na + nb =~= na);
        assert(def_names(a, na) + def_names(b, nb) =~= def_names(a, na));
    } else {
        lemma_def_names_concat(a, na, b.drop_last(), nb.drop_last());
        assert((a + b).drop_last() =~= a + b.drop_last());
        assert((na + nb).drop_last() =~= na + nb.drop_last());
        assert(def_names(a + b, na + nb) =~= def_names(a, na) + def_names(b, nb));
    }
}

proof fn lemma_def_names_reads(u: Seq<Seq<char>>, n: Seq<Seq<char>>)
    requires
        u.len() == n.len(),
    ensures
        def_names(reads(u), n) == Seq::<Seq<char>>::empty(),
    decreases u.len(),
{
    if u.len() > 0 {
        assert(reads(u).drop_last() =~= reads(u.drop_last()));
        lemma_def_names_reads(u.drop_last(), n.drop_last());
    }
}

proof fn lemma_operands_uses_same_len(a: Seq<IROperand>, b: Seq<IROperand>)
    requires
        a.len() == b.len(),
        forall|k: int| 0 <= k < a.len() ==> same_operand(#[trigger] a[k], b[k]),
    ensures
        operands_uses(a).len() == operands_uses(b).len(),
    decreases a.len(),
{
    if a.len() > 0 {
        lemma_operands_uses_same_len(a.drop_last(), b.drop_last());
        assert(same_operand(a[a.len() - 1], b[b.len() - 1]));
    }
}

/// The definition a renamed instruction names is its only one.
proof fn lemma_instr_defs_renamed(k0: IRInstructionKind, k1: IRInstructionKind)
    requires
        same_shape(k0, k1),
    ensures
        instr_slots(k0).len() == instr_names(k1).len(),
        def_names(instr_slots(k0), instr_names(k1)) == match defined_value(k1) {
            Some(d) => seq![d],
            None => Seq::<Seq<char>>::empty(),
        },
{
    let u0 = used_values_of(k0);
    let u1 = used_values_of(k1);
    match (k0, k1) {
        (IRInstructionKind::Call { arguments: a0, .. }, IRInstructionKind::Call { arguments: a1, .. }) => {
            lemma_operands_uses_same_len(a0@, a1@);
        },
        _ => {},
    }
    assert(u0.len() == u1.len());
    assert(defined_value(k0) is Some <==> defined_value(k1) is Some);
    let d0: Seq<(bool, Seq<char>)> = match defined_value(k0) {
        Some(d) => seq![(true, d)],
        None => Seq::empty(),
    };
    let d1: Seq<Seq<char>> = match defined_value(k1) {
        Some(d) => seq![d],
        None => Seq::empty(),
    };
    lemma_def_names_concat(reads(u0), u1, d0, d1);
    lemma_def_names_reads(u0, u1);
    match (defined_value(k0), defined_value(k1)) {
        (Some(x0), Some(x1)) => {
            assert(d0.drop_last() =~= Seq::<(bool, Seq<char>)>::empty());
            assert(d1.drop_last() =~= Seq::<Seq<char>>::empty());
            assert(def_names(d0.drop_last(), d1.drop_last()) == Seq::<Seq<char>>::empty());
            assert(d0.last() == (true, x0));
            assert(d1.last() == x1);
            assert(def_names(d0, d1) =~= d1);
        },
        _ => {},
    }
    assert(Seq::<Seq<char>>::empty() + def_names(d0, d1) =~= def_names(d0, d1));
}

proof fn lemma_instrs_defs_renamed(is0: Seq<IRInstruction>, is1: Seq<IRInstruction>)
    requires
        is0.len() == is1.len(),
        forall|j: int| 0 <= j < is0.len() ==> same_shape(is0[j].kind, #[trigger] is1[j].kind),
    ensures
        instrs_slots(is0).len() == instrs_names(is1).len(),
        def_names(instrs_slots(is0), instrs_names(is1)) == crate::ir::module::instr_defs(is1),
    decreases is0.len(),
{
    if is0.len() > 0 {
        let n = is0.len() - 1;
        lemma_instrs_defs_renamed(is0.drop_last(), is1.drop_last());
        assert(same_shape(is0[n].kind, is1[n].kind));
        lemma_instr_defs_renamed(is0.last().kind, is1.last().kind);
        lemma_def_names_concat(
            instrs_slots(is0.drop_last()),
            instrs_names(is1.drop_last()),
            instr_slots(is0.last().kind),
            instr_names(is1.last().kind),
        );
    }
}

proof fn lemma_blocks_defs_renamed(bs0: Seq<BasicBlock>, bs1: Seq<BasicBlock>)
    requires
        bs0.len() == bs1.len(),
        forall|b: int|
            0 <= b < bs0.len() ==> {
                let nb = #[trigger] bs1[b];
                let ob = bs0[b];
                &&& nb.instructions@.len() == ob.instructions@.len()
                &&& forall|j: int|
                    0 <= j < ob.instructions@.len() ==> same_shape(
                        ob.instructions@[j].kind,
                        #[trigger] nb.instructions@[j].kind,
                    )
            },
    ensures
        blocks_slots(bs0).len() == blocks_names(bs1).len(),
        def_names(blocks_slots(bs0), blocks_names(bs1)) == crate::ir::module::block_defs(bs1),
    decreases bs0.len(),
{
    if bs0.len() > 0 {
        let n = bs0.len() - 1;
        assert forall|b: int|
            0 <= b < bs0.drop_last().len() implies {
                let nb = #[trigger] bs1.drop_last()[b];
                let ob = bs0.drop_last()[b];
                &&& nb.instructions@.len() == ob.instructions@.len()
                &&& forall|j: int|
                    0 <= j < ob.instructions@.len() ==> same_shape(
                        ob.instructions@[j].kind,
                        #[trigger] nb.instructions@[j].kind,
                    )
            } by {
            assert(bs1.drop_last()[b] == bs1[b]);
            assert(bs0.drop_last()[b] == bs0[b]);
        }
        lemma_blocks_defs_renamed(bs0.drop_last(), bs1.drop_last());
        assert(bs1[n] == bs1.last());
        lemma_instrs_defs_renamed(bs0.last().instructions@, bs1.last().instructions@);
        lemma_def_names_concat(
            blocks_slots(bs0.drop_last()),
            blocks_names(bs1.drop_last()),
            instrs_slots(bs0.last().instructions@),
            instrs_names(bs1.last().instructions@),
        );
    }
}

/// After renaming, no value is defined twice: every definition has a fresh
/// name of its own.
pub proof fn law_renaming_defines_each_value_once(f0: IRFunction, f1: IRFunction)
    requires
        ssa_renamed(f0, f1),
    ensures
        crate::ir::module::block_defs(f1.blocks@).no_duplicates(),
{
    lemma_blocks_defs_renamed(f0.blocks@, f1.blocks@);
    lemma_rename_defs(blocks_slots(f0.blocks@), param_map(param_names(f0)));
}

} // verus!
