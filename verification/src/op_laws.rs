//! What popping does to the stack as a sequence of items, and what single
//! instructions do: `VM_IF`, `VM_IS_EQ`, `VM_IS_NE`, `VM_PICK`, a binary
//! `VM_ALU`, `VM_SEND` with one message, and an instruction the machine does not know.
use vstd::prelude::*;
use crate::value::{
    Any, Error, spec_is_ptr, PAIR_T, INSTR_T, UNDEF, VM_TYPEQ, VM_DICT, VM_DEQUE, VM_PAIR, VM_PART,
    VM_NTH, VM_PUSH, VM_DEPTH, VM_DROP, VM_PICK, VM_DUP, VM_ROLL, VM_ALU, VM_EQ, VM_CMP, VM_IF,
    VM_MSG, VM_MY, VM_SEND, VM_NEW, VM_BEH, VM_END, VM_IS_EQ, VM_IS_NE, DICT_HAS, DICT_GET,
    DICT_ADD, DICT_SET, DICT_DEL, DEQUE_NEW, DEQUE_EMPTY, DEQUE_PUSH, DEQUE_POP, DEQUE_PUT,
    DEQUE_PULL, DEQUE_LEN, MY_SELF, MY_BEH, MY_STATE, END_ABORT, END_STOP, END_COMMIT, END_RELEASE,
    E_BOUNDS, E_ASSERT, NIL, ACTOR_T, spec_ofs, ALU_NOT, ALU_ADD, ALU_SUB, ALU_MUL, FREE_T, spec_is_ram, spec_is_fix,
    spec_fix, fix_val, wrap31,
};
use crate::quad::{Quad, valid, valid_quad, mk};
use crate::cpu::{CoreView, same_cell, readable, writable};
use crate::lists::WALK_MAX;
use crate::interp::{spec_falsey, alu_result};
use crate::laws::lemma_spine_links;

verus! {

/// The instructions the machine performs.
pub open spec fn known_op(op: Any) -> bool {
    ||| op == VM_TYPEQ || op == VM_DICT || op == VM_DEQUE || op == VM_PAIR || op == VM_PART
    ||| op == VM_NTH || op == VM_PUSH || op == VM_DEPTH || op == VM_DROP || op == VM_PICK
    ||| op == VM_DUP || op == VM_ROLL || op == VM_ALU || op == VM_EQ || op == VM_CMP
    ||| op == VM_IF || op == VM_MSG || op == VM_MY || op == VM_SEND || op == VM_NEW
    ||| op == VM_BEH || op == VM_END || op == VM_IS_EQ || op == VM_IS_NE
}

/// For the instructions with sub-operations, the sub-operations they know.
pub open spec fn known_sub_op(op: Any, imm: Any) -> bool {
    if op == VM_DICT {
        imm == DICT_HAS || imm == DICT_GET || imm == DICT_ADD || imm == DICT_SET || imm == DICT_DEL
    } else if op == VM_DEQUE {
        imm == DEQUE_NEW || imm == DEQUE_EMPTY || imm == DEQUE_PUSH || imm == DEQUE_POP
            || imm == DEQUE_PUT || imm == DEQUE_PULL || imm == DEQUE_LEN
    } else if op == VM_MY {
        imm == MY_SELF || imm == MY_BEH || imm == MY_STATE
    } else if op == VM_END {
        imm == END_ABORT || imm == END_STOP || imm == END_COMMIT || imm == END_RELEASE
    } else {
        true
    }
}

impl CoreView {
    /// The items of the current stack, top first.
    pub open spec fn stack_items(self) -> Seq<Any> {
        self.items(self.sp())
    }

    /// The current stack is a proper list that does not run through the
    /// current continuation's cell.
    pub open spec fn stack_ok(self) -> bool {
        &&& self.kp_ok()
        &&& self.list_len(self.sp()) < WALK_MAX
        &&& !self.typeq(PAIR_T, self.kp())
    }
}

/// A walk that ends before its fuel runs out is the whole list: more fuel,
/// or just enough, gives the same walk.
pub proof fn lemma_spine_settled(v: CoreView, p: Any, m: nat, k: nat)
    requires
        v.spine(p, m).len() < m,
        v.spine(p, m).len() <= k,
    ensures
        v.spine(p, k) == v.spine(p, m),
    decreases m,
{
    if v.typeq(PAIR_T, p) {
        let y = v.cell(p).y;
        lemma_spine_settled(v, y, (m - 1) as nat, (k - 1) as nat);
        assert(v.spine(p, k) == seq![p] + v.spine(y, (k - 1) as nat));
    }
}

/// Two memories that agree on which cells are pairs and on every `cdr`
/// have the same list walks.
pub proof fn lemma_spine_agree(v: CoreView, w: CoreView, p: Any, m: nat)
    requires
        v.wf(),
        valid(p),
        forall|b: Any| valid(b) ==> #[trigger] w.typeq(PAIR_T, b) == v.typeq(PAIR_T, b),
        forall|b: Any| readable(b) ==> #[trigger] w.cell(b).y == v.cell(b).y,
    ensures
        w.spine(p, m) == v.spine(p, m),
    decreases m,
{
    if m > 0 && v.typeq(PAIR_T, p) {
        assert(w.typeq(PAIR_T, p));
        assert(readable(p));
        assert(w.cell(p).y == v.cell(p).y);
        crate::lists::lemma_cell_fields_valid(v, p);
        lemma_spine_agree(v, w, v.cell(p).y, (m - 1) as nat);
    } else {
        assert(w.typeq(PAIR_T, p) == v.typeq(PAIR_T, p));
    }
}

/// Popping the stack gives its top item (`UNDEF` when it is empty) and
/// leaves the items below it; only the continuation's stack pointer is
/// written, and nothing is allocated.
pub proof fn law_stack_pop_takes_top(v: CoreView)
    requires
        v.wf(),
        v.stack_ok(),
    ensures
        ({
            let s = v.stack_items();
            let (r, w) = v.pop_step();
            &&& s.len() == 0 ==> r == Ok::<Any, Error>(UNDEF) && w == v
            &&& s.len() > 0 ==> r == Ok::<Any, Error>(s[0])
            &&& s.len() > 0 ==> w == v.set_sp_state(v.cdr(v.sp()))
            &&& s.len() > 0 ==> w.stack_items() == s.drop_first()
            &&& w.wf()
        }),
{
    let sp = v.sp();
    let kp = v.kp();
    let big = WALK_MAX as nat;
    let sv = v.spine(sp, big);
    lemma_spine_links(v, sp, big);
    if sv.len() > 0 {
        let c = v.cell(sp).y;
        assert(sv == seq![sp] + v.spine(c, (big - 1) as nat));
        let tail = v.spine(c, (big - 1) as nat);
        lemma_spine_settled(v, c, (big - 1) as nat, big);
        lemma_spine_settled(v, c, (big - 1) as nat, tail.len());
        assert(writable(kp));
        let q = Quad { x: c, ..v.cell(kp) };
        let w = v.set_cell(kp, q);
        assert(w == v.pop_step().1);
        v.lemma_set_cell_keeps_types(kp, q);
        v.lemma_set_cell_wf(kp, q);
        // the continuation and its stack pointer
        let dq = v.ddeque();
        if same_cell(kp, dq) {
            v.lemma_set_cell_same(kp, q, dq);
        } else {
            v.lemma_set_cell_other(kp, q, dq);
        }
        assert(w.kp() == kp);
        v.lemma_set_cell_same(kp, q, kp);
        assert(w.sp() == c);
        // the cells below the top are untouched
        lemma_spine_links(v, c, (big - 1) as nat);
        crate::lists::lemma_cell_fields_valid(v, sp);
        crate::lists::lemma_spine_valid(v, c, (big - 1) as nat);
        assert forall|i: int| 0 <= i < tail.len() implies #[trigger] w.cell(tail[i]) == v.cell(tail[i]) by {
            assert(v.typeq(PAIR_T, tail[i]));
            if same_cell(kp, tail[i]) {
                assert(v.cell(kp) == v.cell(tail[i]));
                assert(v.typeq(PAIR_T, kp));
            }
            v.lemma_set_cell_other(kp, q, tail[i]);
        }
        assert forall|b: Any| readable(b) implies #[trigger] w.cell(b).y == v.cell(b).y by {
            if same_cell(kp, b) {
                v.lemma_set_cell_same(kp, q, b);
                assert(v.cell(kp) == v.cell(b));
            } else {
                v.lemma_set_cell_other(kp, q, b);
            }
        }
        crate::lists::lemma_cell_fields_valid(v, sp);
        lemma_spine_agree(v, w, c, big);
        assert(w.spine(c, big) == tail);
        assert(w.stack_items() =~= v.stack_items().drop_first());
    }
}

/// An instruction the machine does not know, or a sub-operation its
/// instruction does not know, fails with `E_BOUNDS` and changes nothing:
/// nothing is popped, pushed or allocated.
pub proof fn law_perform_unknown(v: CoreView, ip: Any)
    requires
        v.wf(),
        spec_is_ptr(ip),
        readable(ip),
        v.cell(ip).t == INSTR_T,
        !known_op(v.cell(ip).x) || !known_sub_op(v.cell(ip).x, v.cell(ip).y),
        (v.cell(ip).x == VM_MY || v.cell(ip).x == VM_END) ==> v.self_ptr_result() is Ok,
    ensures
        v.perform_step(ip) == (Err::<Any, Error>(E_BOUNDS), v),
{
}

/// `VM_IF` pops the top of the stack (`UNDEF` when the stack is empty) and
/// continues at the instruction's `imm` when that item is truthy, at its
/// `kip` when it is falsey; the stack loses its top item, only the
/// continuation's stack pointer is written, and nothing is allocated.
pub proof fn law_perform_if(v: CoreView, ip: Any)
    requires
        v.wf(),
        v.stack_ok(),
        spec_is_ptr(ip),
        readable(ip),
        v.cell(ip).t == INSTR_T,
        v.cell(ip).x == VM_IF,
    ensures
        ({
            let s = v.stack_items();
            let b = if s.len() > 0 { s[0] } else { UNDEF };
            let (r, w) = v.perform_step(ip);
            &&& r == Ok::<Any, Error>(if spec_falsey(b) { v.cell(ip).z } else { v.cell(ip).y })
            &&& s.len() == 0 ==> w == v
            &&& s.len() > 0 ==> w == v.set_sp_state(v.cdr(v.sp()))
            &&& s.len() > 0 ==> w.stack_items() == s.drop_first()
        }),
{
    law_stack_pop_takes_top(v);
}

/// `VM_IS_EQ` pops the top of the stack (`UNDEF` when it is empty), even
/// when the assertion fails; it fails with `E_ASSERT` exactly when that item
/// differs from the instruction's `imm`, and otherwise continues at `kip`.
pub proof fn law_perform_is_eq(v: CoreView, ip: Any)
    requires
        v.wf(),
        v.stack_ok(),
        spec_is_ptr(ip),
        readable(ip),
        v.cell(ip).t == INSTR_T,
        v.cell(ip).x == VM_IS_EQ,
    ensures
        ({
            let s = v.stack_items();
            let b = if s.len() > 0 { s[0] } else { UNDEF };
            let (r, w) = v.perform_step(ip);
            &&& r == (if b != v.cell(ip).y { Err::<Any, Error>(E_ASSERT) } else { Ok(v.cell(ip).z) })
            &&& s.len() == 0 ==> w == v
            &&& s.len() > 0 ==> w == v.set_sp_state(v.cdr(v.sp()))
            &&& s.len() > 0 ==> w.stack_items() == s.drop_first()
        }),
{
    law_stack_pop_takes_top(v);
}

/// `VM_IS_NE` pops the top of the stack (`UNDEF` when it is empty), even
/// when the assertion fails; it fails with `E_ASSERT` exactly when that item
/// equals the instruction's `imm`, and otherwise continues at `kip`.
pub proof fn law_perform_is_ne(v: CoreView, ip: Any)
    requires
        v.wf(),
        v.stack_ok(),
        spec_is_ptr(ip),
        readable(ip),
        v.cell(ip).t == INSTR_T,
        v.cell(ip).x == VM_IS_NE,
    ensures
        ({
            let s = v.stack_items();
            let b = if s.len() > 0 { s[0] } else { UNDEF };
            let (r, w) = v.perform_step(ip);
            &&& r == (if b == v.cell(ip).y { Err::<Any, Error>(E_ASSERT) } else { Ok(v.cell(ip).z) })
            &&& s.len() == 0 ==> w == v
            &&& s.len() > 0 ==> w == v.set_sp_state(v.cdr(v.sp()))
            &&& s.len() > 0 ==> w.stack_items() == s.drop_first()
        }),
{
    law_stack_pop_takes_top(v);
}

/// An arithmetic or bitwise result is a valid value.
pub proof fn lemma_alu_result_valid(imm: Any, a: Any, b: Any)
    ensures
        valid(alu_result(imm, a, b)),
{
    if spec_is_fix(a) && spec_is_fix(b) {
        assert(a >= 0x8000_0000u32 && b >= 0x8000_0000u32 ==> (a & b) >= 0x8000_0000u32) by (bit_vector);
        assert(a >= 0x8000_0000u32 ==> (a | b) >= 0x8000_0000u32) by (bit_vector);
        assert(((a ^ b) | 0x8000_0000u32) >= 0x8000_0000u32) by (bit_vector);
        let m = alu_result(imm, a, b);
        if imm == ALU_ADD || imm == ALU_SUB || imm == ALU_MUL {
            let n = if imm == ALU_ADD {
                wrap31(fix_val(a) + fix_val(b))
            } else if imm == ALU_SUB {
                wrap31(fix_val(a) - fix_val(b))
            } else {
                wrap31(fix_val(a) * fix_val(b))
            };
            assert(m == spec_fix(n));
        }
    }
}

/// Rewriting the current stack pointer of a continuation that is not the
/// memory descriptor leaves the allocator, the current event and its
/// sponsor alone.
pub proof fn lemma_set_sp_keeps_alloc(v: CoreView, c: Any, init: Quad)
    requires
        v.wf(),
        v.kp_ok(),
        writable(v.kp()),
        valid(c),
        !same_cell(v.kp(), v.memory()),
        v.alloc_refs_ok(),
    ensures
        ({
            let w = v.set_sp_state(c);
            &&& w.wf()
            &&& w.kp() == v.kp()
            &&& w.sp() == c
            &&& w.memory() == v.memory()
            &&& w.ddeque() == v.ddeque()
            &&& w.mem_cell() == v.mem_cell()
            &&& w.cur_sponsor() == v.cur_sponsor()
            &&& w.reserve_ptr() == v.reserve_ptr()
            &&& w.alloc_outcome(init) == v.alloc_outcome(init)
            &&& w.fresh_alloc() == v.fresh_alloc()
            &&& w.alloc_spares(v.ddeque()) == v.alloc_spares(v.ddeque())
            &&& w.alloc_spares(v.kp()) == v.alloc_spares(v.kp())
            &&& w.ep() == v.ep()
            &&& forall|b: Any| readable(b) && !same_cell(b, v.kp()) ==> #[trigger] w.cell(b) == v.cell(b)
            &&& forall|typ: Any, b: Any| valid(b) ==> #[trigger] w.typeq(typ, b) == v.typeq(typ, b)
            &&& v.top_alloc() ==> w.top_alloc()
        }),
{
    let kp = v.kp();
    let q = Quad { x: c, ..v.cell(kp) };
    let w = v.set_cell(kp, q);
    v.lemma_set_cell_keeps_types(kp, q);
    v.lemma_set_cell_wf(kp, q);
    let dq = v.ddeque();
    crate::value::lemma_ram_ptr(v.phase(), 0);
    crate::value::lemma_ram_ptr(v.phase(), 1);
    if same_cell(kp, dq) {
        v.lemma_set_cell_same(kp, q, dq);
    } else {
        v.lemma_set_cell_other(kp, q, dq);
    }
    v.lemma_set_cell_same(kp, q, kp);
    v.lemma_set_cell_other(kp, q, v.memory());
    assert(w.kp() == kp);
    assert(w.ep() == v.ep());
    let ep = v.ep();
    crate::lists::lemma_cell_fields_valid(v, kp);
    assert(readable(ep));
    assert(w.cell(ep).t == v.cell(ep).t);
    assert(w.cur_sponsor() == v.cur_sponsor());
    let sp = v.cur_sponsor();
    if readable(sp) {
        assert(w.cell(sp).t == v.cell(sp).t);
    }
    let nx = v.ram_next();
    crate::lists::lemma_cell_fields_valid(v, v.memory());
    assert(w.typeq(FREE_T, nx) == v.typeq(FREE_T, nx));
    assert forall|b: Any| readable(b) && !same_cell(b, kp) implies #[trigger] w.cell(b) == v.cell(b) by {
        v.lemma_set_cell_other(kp, q, b);
    }
    assert(w.phase() == v.phase());
}

/// A binary `VM_ALU` operation pops the top item `vv` and the item `v` below
/// it and pushes `alu_result(imm, v, vv)`: the deeper item is the left
/// operand. When the current sponsor can pay for a cell and the heap has
/// one, the instruction continues at `kip`, and the new top pair holds the
/// result in front of the list below the two operands.
#[verifier::spinoff_prover]
#[verifier::rlimit(60)]
pub proof fn law_perform_alu(v: CoreView, ip: Any)
    requires
        v.wf(),
        v.stack_ok(),
        spec_is_ptr(ip),
        readable(ip),
        v.cell(ip).t == INSTR_T,
        v.cell(ip).x == VM_ALU,
        v.cell(ip).y != ALU_NOT,
        v.list_len(v.sp()) >= 2,
        v.alloc_outcome(mk(PAIR_T, UNDEF, UNDEF, UNDEF)) is Ok,
        v.fresh_alloc(),
        v.alloc_spares(v.ddeque()),
        v.alloc_spares(v.kp()),
    ensures
        ({
            let s = v.stack_items();
            let (r, w) = v.perform_step(ip);
            &&& r == Ok::<Any, Error>(v.cell(ip).z)
            &&& w.kp() == v.kp()
            &&& w.typeq(PAIR_T, w.sp())
            &&& w.car(w.sp()) == alu_result(v.cell(ip).y, s[1], s[0])
            &&& w.cdr(w.sp()) == v.cdr(v.cdr(v.sp()))
        }),
{
    let s = v.stack_items();
    let imm = v.cell(ip).y;
    law_stack_pop_takes_top(v);
    let v1 = v.pop_step().1;
    let c1 = v.cdr(v.sp());
    assert(v1.stack_items() == s.drop_first());
    lemma_spine_links(v, v.sp(), WALK_MAX as nat);
    crate::lists::lemma_spine_valid(v, v.sp(), WALK_MAX as nat);
    assert(writable(v.kp()));
    let init = mk(PAIR_T, alu_result(imm, s[1], s[0]), v.cdr(c1), UNDEF);
    crate::lists::lemma_cell_fields_valid(v, v.sp());
    lemma_set_sp_keeps_alloc(v, c1, init);
    v.lemma_set_cell_keeps_types(v.kp(), Quad { x: c1, ..v.cell(v.kp()) });
    assert(v1.stack_ok()) by {
        assert(v1.list_len(v1.sp()) == v1.stack_items().len());
    }
    law_stack_pop_takes_top(v1);
    let v2 = v1.pop_step().1;
    assert(v1.stack_items().len() > 0);
    assert(v1.pop_step().0 == Ok::<Any, Error>(s[1]));
    let c2 = v1.cdr(c1);
    assert(c2 == v.cdr(c1)) by {
        assert(v1.cell(c1).y == v.cell(c1).y);
    }
    crate::lists::lemma_spine_valid(v1, c1, WALK_MAX as nat);
    lemma_spine_links(v1, c1, WALK_MAX as nat);
    crate::lists::lemma_cell_fields_valid(v1, c1);
    lemma_set_sp_keeps_alloc(v1, c2, init);
    assert(v.alloc_outcome(init) == v.alloc_outcome(mk(PAIR_T, UNDEF, UNDEF, UNDEF)));
    let val = alu_result(imm, s[1], s[0]);
    // the push succeeds
    lemma_alu_result_valid(imm, s[1], s[0]);
    v2.lemma_alloc_cell(init, v2.ddeque());
    crate::value::lemma_ram_ptr(v2.phase(), 1);
    assert(v2.push_step(val).0 is Ok);
    crate::laws::law_stack_push_pop(v2, val);
}

/// The first steps of `VM_SEND` with one message: popping the target and
/// then the message, and allocating the event from the top of the heap.
#[verifier::spinoff_prover]
#[verifier::rlimit(60)]
proof fn lemma_send_prefix(v: CoreView, target: Any, msg: Any)
    requires
        v.wf(),
        v.stack_ok(),
        v.list_len(v.sp()) >= 2,
        v.stack_items()[0] == target,
        v.stack_items()[1] == msg,
        v.top_alloc(),
        !same_cell(v.kp(), v.memory()),
        !same_cell(v.kp(), v.cur_sponsor()),
        !same_cell(v.kp(), v.ddeque()),
        !same_cell(v.cur_sponsor(), v.ddeque()),
        v.alloc_outcome(mk(v.cur_sponsor(), target, msg, NIL)) is Ok,
    ensures
        ({
            let v1 = v.pop_step().1;
            let v2 = v1.pop_step().1;
            let init = mk(v.cur_sponsor(), target, msg, NIL);
            let v3 = v2.alloc_state(init);
            let e = v.ram_top();
            &&& v.pop_step().0 == Ok::<Any, Error>(target)
            &&& v1.pop_step().0 == Ok::<Any, Error>(msg)
            &&& v2.cur_sponsor() == v.cur_sponsor()
            &&& v2.ep() == v.ep()
            &&& v2.kp() == v.kp()
            &&& v2.kp_ok()
            &&& v2.alloc_outcome(init) == Ok::<Any, Error>(e)
            &&& v3.wf()
            &&& v3.cell(e) == init
            &&& writable(e)
            &&& !v.in_heap(e)
            &&& forall|b: Any| readable(b) && v.in_heap(b) && !same_cell(b, v.kp()) && !same_cell(b, v.cur_sponsor())
                && !same_cell(b, v.memory()) ==> #[trigger] v3.cell(b) == v.cell(b)
            &&& forall|b: Any| valid(b) ==> #[trigger] v2.typeq(ACTOR_T, b) == v.typeq(ACTOR_T, b)
            &&& forall|b: Any| valid(b) ==> #[trigger] v1.typeq(ACTOR_T, b) == v.typeq(ACTOR_T, b)
            &&& valid(target)
            &&& v3.ddeque() == v.ddeque()
            &&& v3.memory() == v.memory()
            &&& v3.kp() == v.kp()
            &&& v3.ep() == v.ep()
            &&& v3.kp_ok()
        }),
{
    let s = v.stack_items();
    let init = mk(v.cur_sponsor(), target, msg, NIL);
    law_stack_pop_takes_top(v);
    let v1 = v.pop_step().1;
    let c1 = v.cdr(v.sp());
    lemma_spine_links(v, v.sp(), WALK_MAX as nat);
    crate::lists::lemma_spine_valid(v, v.sp(), WALK_MAX as nat);
    assert(writable(v.kp()));
    crate::lists::lemma_cell_fields_valid(v, v.sp());
    lemma_set_sp_keeps_alloc(v, c1, init);
    v.lemma_set_cell_keeps_types(v.kp(), Quad { x: c1, ..v.cell(v.kp()) });
    assert(v1.stack_ok()) by {
        assert(v1.list_len(v1.sp()) == v1.stack_items().len());
    }
    law_stack_pop_takes_top(v1);
    let v2 = v1.pop_step().1;
    assert(v1.stack_items().len() > 0);
    let c2 = v1.cdr(c1);
    crate::lists::lemma_spine_valid(v1, c1, WALK_MAX as nat);
    lemma_spine_links(v1, c1, WALK_MAX as nat);
    crate::lists::lemma_cell_fields_valid(v1, c1);
    lemma_set_sp_keeps_alloc(v1, c2, init);
    crate::value::lemma_ram_ptr(v.phase(), 0);
    crate::value::lemma_ram_ptr(v.phase(), 1);
    assert(valid_quad(init)) by {
        crate::lists::lemma_cell_fields_valid(v, v.ep());
    }
    crate::dict_laws::lemma_top_alloc(v2, init, UNDEF, 0);
    let v3 = v2.alloc_state(init);
    assert forall|b: Any| readable(b) && v.in_heap(b) && !same_cell(b, v.kp()) && !same_cell(b, v.cur_sponsor())
        && !same_cell(b, v.memory()) implies #[trigger] v3.cell(b) == v.cell(b) by {
        assert(v2.cell(b) == v1.cell(b));
        assert(v1.cell(b) == v.cell(b));
        assert(v2.in_heap(b));
    }
    let kp = v.kp();
    let dq = v.ddeque();
    assert(v1.cell(dq) == v.cell(dq));
    assert(v2.cell(dq) == v1.cell(dq));
    assert(v.in_heap(dq) && readable(dq));
    assert(v3.cell(dq) == v.cell(dq));
    assert(v3.kp() == kp);
    if spec_is_ram(kp) {
        assert(v.in_heap(kp) && readable(kp));
        assert(v3.cell(kp) == v2.cell(kp)) by {
            assert(v2.in_heap(kp));
        }
    }
}

/// The steps of `VM_SEND` with one message, when each of them succeeds.
proof fn lemma_send_unfold(v: CoreView, imm: Any, target: Any, msg: Any, me: Any)
    requires
        spec_is_fix(imm),
        fix_val(imm) <= 0,
        v.pop_step().0 == Ok::<Any, Error>(target),
        v.pop_step().1.typeq(ACTOR_T, target),
        v.pop_step().1.pop_step().0 == Ok::<Any, Error>(msg),
        ({
            let v2 = v.pop_step().1.pop_step().1;
            let (r3, v3) = v2.new_event_step(target, msg);
            &&& r3 == Ok::<Any, Error>(v.ram_top())
            &&& v3.self_ptr_result() == Ok::<Any, Error>(me)
            &&& writable(me)
            &&& writable(v.ram_top())
        }),
    ensures
        ({
            let v3 = v.pop_step().1.pop_step().1.new_event_step(target, msg).1;
            let e = v.ram_top();
            let next = v3.cell(me).z;
            let v4 = if spec_is_ram(next) { v3.set_link(e, next) } else { v3 };
            v.send_step(imm) == (Ok::<(), Error>(()), v4.set_link(me, e))
        }),
{
}

/// The last steps of `VM_SEND`: linking the new event `e` in front of the
/// actor's sent events, and the actor to it.
#[verifier::spinoff_prover]
#[verifier::rlimit(60)]
proof fn lemma_send_links(v: CoreView, v3: CoreView, e: Any, me: Any, init: Quad, s: Seq<Any>, p: Seq<Any>)
    requires
        v.wf(),
        v3.wf(),
        v3.ddeque() == v.ddeque(),
        v.event_queue(s),
        v.event_chain(v.cell(me).z, p),
        crate::dispatch_laws::disjoint(s, p),
        v.all_in_heap(s),
        v.all_in_heap(p),
        v.in_heap(me),
        spec_ofs(me) != 0,
        writable(me),
        writable(e),
        !v.in_heap(e),
        init.z == NIL,
        v3.cell(e) == init,
        v3.cell(me) == v.cell(me),
        v3.cell(v.ddeque()) == v.cell(v.ddeque()),
        forall|i: int| 0 <= i < s.len() ==> #[trigger] v3.cell(s[i]) == v.cell(s[i]),
        forall|i: int| 0 <= i < p.len() ==> #[trigger] v3.cell(p[i]) == v.cell(p[i]),
        crate::dispatch_laws::apart(me, s),
        crate::dispatch_laws::apart(me, p),
        !same_cell(me, v.ddeque()),
        v.in_heap(v.ddeque()),
    ensures
        ({
            let next = v3.cell(me).z;
            let v4 = if spec_is_ram(next) { v3.set_link(e, next) } else { v3 };
            let w = v4.set_link(me, e);
            &&& w.cell(me) == (Quad { z: e, ..v.cell(me) })
            &&& w.cell(e).t == init.t
            &&& w.cell(e).x == init.x
            &&& w.cell(e).y == init.y
            &&& w.event_chain(e, seq![e] + p)
            &&& w.event_queue(s)
        }),
{
    let dq = v.ddeque();
    crate::value::lemma_ram_ptr(v.phase(), 1);
    // the queue, the sent events and the queue descriptor are untouched so far
    crate::dispatch_laws::lemma_event_queue_kept(v, v3, s);
    let next = v.cell(me).z;
    assert(v3.cell(me).z == next);
    // the new event is linked in front of the sent ones
    assert(writable(e) && !v.in_heap(e));
    assert forall|i: int| 0 <= i < s.len() implies writable(#[trigger] s[i]) && !same_cell(e, s[i]) by {
        assert(v.in_heap(s[i]) && writable(s[i]));
    }
    assert forall|i: int| 0 <= i < p.len() implies writable(#[trigger] p[i]) && !same_cell(e, p[i]) by {
        assert(v.in_heap(p[i]) && writable(p[i]));
    }
    let others = seq![me, dq];
    assert forall|i: int| 0 <= i < others.len() implies writable(#[trigger] others[i]) && !same_cell(e, others[i]) by {}
    let v4 = if spec_is_ram(next) { v3.set_link(e, next) } else { v3 };
    if spec_is_ram(next) {
        assert(p.len() > 0 && next == p[0]);
        assert(writable(p[0]));
        let qe = Quad { z: next, ..v3.cell(e) };
        v3.lemma_link_valid(e, next);
        v3.lemma_cells_kept(e, qe, s);
        v3.lemma_cells_kept(e, qe, p);
        v3.lemma_cells_kept(e, qe, others);
        assert(v4.cell(me) == v3.cell(me) && v4.cell(dq) == v3.cell(dq)) by {
            assert(others[0] == me && others[1] == dq);
        }
    }
    assert(v4.wf());
    assert(v4.ddeque() == dq);
    assert(v4.cell(e) == (Quad { z: (if spec_is_ram(next) { next } else { NIL }), ..init }));
    assert forall|i: int| 0 <= i < s.len() implies #[trigger] v4.cell(s[i]) == v.cell(s[i]) by {}
    assert forall|i: int| 0 <= i < p.len() implies #[trigger] v4.cell(p[i]) == v.cell(p[i]) by {}
    // the actor points at the new event
    let qm = Quad { z: e, ..v4.cell(me) };
    v4.lemma_link_valid(me, e);
    assert forall|i: int| 0 <= i < s.len() implies writable(#[trigger] s[i]) && !same_cell(me, s[i]) by {}
    assert forall|i: int| 0 <= i < p.len() implies writable(#[trigger] p[i]) && !same_cell(me, p[i]) by {}
    let rest = seq![e, dq];
    assert forall|i: int| 0 <= i < rest.len() implies writable(#[trigger] rest[i]) && !same_cell(me, rest[i]) by {}
    v4.lemma_cells_kept(me, qm, s);
    v4.lemma_cells_kept(me, qm, p);
    v4.lemma_cells_kept(me, qm, rest);
    let w = v4.set_link(me, e);
    assert(w.cell(e) == v4.cell(e) && w.cell(dq) == v4.cell(dq)) by {
        assert(rest[0] == e && rest[1] == dq);
    }
    crate::dispatch_laws::lemma_event_queue_kept(v, w, s);
    let c = seq![e] + p;
    assert forall|i: int| 0 <= i < c.len() - 1 implies (#[trigger] w.cell(c[i])).z == c[i + 1] by {
        if i > 0 {
            assert(c[i] == p[i - 1]);
            assert(c[i + 1] == p[i]);
        }
    }
    assert forall|i: int| 0 <= i < c.len() implies writable(#[trigger] c[i]) && !same_cell(c[i], w.ddeque()) by {
        if i > 0 {
            assert(c[i] == p[i - 1]);
        }
    }
    assert forall|i: int, j: int| 0 <= i < j < c.len() implies !same_cell(#[trigger] c[i], #[trigger] c[j]) by {
        assert(c[j] == p[j - 1]);
        if i > 0 {
            assert(c[i] == p[i - 1]);
        }
    }
    if p.len() > 0 {
        assert(c.last() == p.last());
        assert(w.cell(p[p.len() - 1]) == v.cell(p[p.len() - 1]));
    }
    assert(w.event_chain(e, c));
}

/// The actor the current event is addressed to is found the same way in a
/// memory that keeps the continuation, the event and the actor's cell.
proof fn lemma_self_ptr_kept(v: CoreView, w: CoreView, me: Any)
    requires
        v.wf(),
        v.self_ptr_result() == Ok::<Any, Error>(me),
        writable(me),
        w.kp() == v.kp(),
        w.kp_ok(),
        w.ep() == v.ep(),
        w.cell(v.ep()) == v.cell(v.ep()),
        w.cell(me) == v.cell(me),
    ensures
        w.self_ptr_result() == Ok::<Any, Error>(me),
{
    let target = v.cell(v.ep()).x;
    crate::value::lemma_raw_edits(target);
    crate::value::lemma_opq_fields(target);
    assert(w.cell(target) == w.cell(me));
    assert(v.cell(target) == v.cell(me));
}

/// The event a send allocates.
proof fn lemma_new_event_alloc(v2: CoreView, target: Any, msg: Any)
    requires
        v2.typeq(ACTOR_T, target),
        v2.kp_ok(),
        spec_is_ptr(v2.ep()),
        readable(v2.cur_sponsor()),
    ensures
        v2.new_event_step(target, msg) == (
            v2.alloc_outcome(mk(v2.cur_sponsor(), target, msg, NIL)),
            v2.alloc_state(mk(v2.cur_sponsor(), target, msg, NIL)),
        ),
{
}

/// The middle steps of `VM_SEND` with one message: the target and the
/// message are popped, and the event is allocated; the actor, the queue and
/// the sent events are where they were.
#[verifier::spinoff_prover]
#[verifier::rlimit(80)]
proof fn lemma_send_middle(v: CoreView, imm: Any, me: Any, s: Seq<Any>, p: Seq<Any>)
    requires
        v.wf(),
        v.stack_ok(),
        v.list_len(v.sp()) >= 2,
        spec_is_fix(imm),
        fix_val(imm) <= 0,
        v.typeq(ACTOR_T, v.stack_items()[0]),
        v.top_alloc(),
        v.alloc_outcome(mk(v.cur_sponsor(), v.stack_items()[0], v.stack_items()[1], NIL)) is Ok,
        v.self_ptr_result() == Ok::<Any, Error>(me),
        writable(me),
        v.event_queue(s),
        v.event_chain(v.cell(me).z, p),
        crate::dispatch_laws::disjoint(s, p),
        v.all_in_heap(s),
        v.all_in_heap(p),
        v.all_in_heap(seq![me]),
        crate::dispatch_laws::apart(me, s),
        crate::dispatch_laws::apart(me, p),
        crate::dispatch_laws::apart(v.kp(), s),
        crate::dispatch_laws::apart(v.kp(), p),
        crate::dispatch_laws::apart(v.cur_sponsor(), s),
        crate::dispatch_laws::apart(v.cur_sponsor(), p),
        !same_cell(v.kp(), me),
        !same_cell(v.kp(), v.ep()),
        !same_cell(v.kp(), v.ddeque()),
        !same_cell(v.kp(), v.memory()),
        !same_cell(v.kp(), v.cur_sponsor()),
        !same_cell(v.cur_sponsor(), me),
        !same_cell(v.cur_sponsor(), v.ddeque()),
        !same_cell(me, v.ddeque()),
    ensures
        ({
            let target = v.stack_items()[0];
            let msg = v.stack_items()[1];
            let e = v.ram_top();
            let init = mk(v.cur_sponsor(), target, msg, NIL);
            let v2 = v.pop_step().1.pop_step().1;
            let v3 = v2.alloc_state(init);
            &&& v.pop_step().0 == Ok::<Any, Error>(target)
            &&& v.pop_step().1.typeq(ACTOR_T, target)
            &&& v.pop_step().1.pop_step().0 == Ok::<Any, Error>(msg)
            &&& v2.new_event_step(target, msg) == (Ok::<Any, Error>(e), v3)
            &&& v3.self_ptr_result() == Ok::<Any, Error>(me)
            &&& writable(e)
            &&& !v.in_heap(e)
            &&& v3.wf()
            &&& v3.ddeque() == v.ddeque()
            &&& v3.cell(e) == init
            &&& v3.cell(me) == v.cell(me)
            &&& v3.cell(v.ddeque()) == v.cell(v.ddeque())
            &&& forall|i: int| 0 <= i < s.len() ==> #[trigger] v3.cell(s[i]) == v.cell(s[i])
            &&& forall|i: int| 0 <= i < p.len() ==> #[trigger] v3.cell(p[i]) == v.cell(p[i])
            &&& v.in_heap(me) && spec_ofs(me) != 0
            &&& v.in_heap(v.ddeque())
        }),
{
    let target = v.stack_items()[0];
    let msg = v.stack_items()[1];
    let e = v.ram_top();
    let kp = v.kp();
    let sp = v.cur_sponsor();
    let dq = v.ddeque();
    let init = mk(sp, target, msg, NIL);
    lemma_send_prefix(v, target, msg);
    let v1 = v.pop_step().1;
    let v2 = v1.pop_step().1;
    let v3 = v2.alloc_state(init);
    assert(v1.typeq(ACTOR_T, target) && v2.typeq(ACTOR_T, target));
    assert(spec_is_ptr(v.ep()) && readable(sp));
    lemma_new_event_alloc(v2, target, msg);
    crate::value::lemma_ram_ptr(v.phase(), 0);
    crate::value::lemma_ram_ptr(v.phase(), 1);
    // the current event and the actor are where they were
    let ep = v.ep();
    assert(v3.cell(ep) == v.cell(ep));
    assert(seq![me][0] == me);
    assert(v.in_heap(me) && spec_ofs(me) != 0);
    assert(v3.cell(me) == v.cell(me));
    lemma_self_ptr_kept(v, v3, me);
    assert forall|i: int| 0 <= i < s.len() implies #[trigger] v3.cell(s[i]) == v.cell(s[i]) by {
        assert(v.in_heap(s[i]) && spec_ofs(s[i]) != 0 && writable(s[i]));
    }
    assert forall|i: int| 0 <= i < p.len() implies #[trigger] v3.cell(p[i]) == v.cell(p[i]) by {
        assert(v.in_heap(p[i]) && spec_ofs(p[i]) != 0 && writable(p[i]));
    }
    assert(v3.cell(dq) == v.cell(dq));
}

/// The effects of the steps of `VM_SEND` with one message.
#[verifier::spinoff_prover]
#[verifier::rlimit(80)]
proof fn lemma_send_effects(v: CoreView, imm: Any, me: Any, s: Seq<Any>, p: Seq<Any>)
    requires
        v.wf(),
        v.stack_ok(),
        v.list_len(v.sp()) >= 2,
        spec_is_fix(imm),
        fix_val(imm) <= 0,
        v.typeq(ACTOR_T, v.stack_items()[0]),
        v.top_alloc(),
        v.alloc_outcome(mk(v.cur_sponsor(), v.stack_items()[0], v.stack_items()[1], NIL)) is Ok,
        v.self_ptr_result() == Ok::<Any, Error>(me),
        writable(me),
        v.event_queue(s),
        v.event_chain(v.cell(me).z, p),
        crate::dispatch_laws::disjoint(s, p),
        v.all_in_heap(s),
        v.all_in_heap(p),
        v.all_in_heap(seq![me]),
        crate::dispatch_laws::apart(me, s),
        crate::dispatch_laws::apart(me, p),
        crate::dispatch_laws::apart(v.kp(), s),
        crate::dispatch_laws::apart(v.kp(), p),
        crate::dispatch_laws::apart(v.cur_sponsor(), s),
        crate::dispatch_laws::apart(v.cur_sponsor(), p),
        !same_cell(v.kp(), me),
        !same_cell(v.kp(), v.ep()),
        !same_cell(v.kp(), v.ddeque()),
        !same_cell(v.kp(), v.memory()),
        !same_cell(v.kp(), v.cur_sponsor()),
        !same_cell(v.cur_sponsor(), me),
        !same_cell(v.cur_sponsor(), v.ddeque()),
        !same_cell(me, v.ddeque()),
    ensures
        ({
            let target = v.stack_items()[0];
            let msg = v.stack_items()[1];
            let e = v.ram_top();
            let v2 = v.pop_step().1.pop_step().1;
            let (r3, v3) = v2.new_event_step(target, msg);
            let next = v3.cell(me).z;
            let v4 = if spec_is_ram(next) { v3.set_link(e, next) } else { v3 };
            let w = v4.set_link(me, e);
            &&& v.pop_step().0 == Ok::<Any, Error>(target)
            &&& v.pop_step().1.typeq(ACTOR_T, target)
            &&& v.pop_step().1.pop_step().0 == Ok::<Any, Error>(msg)
            &&& r3 == Ok::<Any, Error>(e)
            &&& v3.self_ptr_result() == Ok::<Any, Error>(me)
            &&& writable(e)
            &&& w.cell(me) == (Quad { z: e, ..v.cell(me) })
            &&& w.cell(e).t == v.cur_sponsor()
            &&& w.cell(e).x == target
            &&& w.cell(e).y == msg
            &&& w.event_chain(e, seq![e] + p)
            &&& w.event_queue(s)
        }),
{
    lemma_send_middle(v, imm, me, s, p);
    let target = v.stack_items()[0];
    let msg = v.stack_items()[1];
    let init = mk(v.cur_sponsor(), target, msg, NIL);
    let v3 = v.pop_step().1.pop_step().1.new_event_step(target, msg).1;
    lemma_send_links(v, v3, v.ram_top(), me, init, s, p);
}

/// Sending a message in `VM_SEND`: the new event goes in front of the
/// events the current actor has sent in this transaction, and the event
/// queue is left as it is (the events are delivered when the transaction
/// commits). Shown for a single message (a non-positive count), with the
/// event allocated from the top of the heap, and the stack, the queue, the
/// actor's sent events, the actor and the sponsor in distinct cells below
/// it.
#[verifier::spinoff_prover]
pub proof fn law_send_prepends_event(v: CoreView, imm: Any, me: Any, s: Seq<Any>, p: Seq<Any>)
    requires
        v.wf(),
        v.stack_ok(),
        v.list_len(v.sp()) >= 2,
        spec_is_fix(imm),
        fix_val(imm) <= 0,
        v.typeq(ACTOR_T, v.stack_items()[0]),
        v.top_alloc(),
        v.alloc_outcome(mk(v.cur_sponsor(), v.stack_items()[0], v.stack_items()[1], NIL)) is Ok,
        v.self_ptr_result() == Ok::<Any, Error>(me),
        writable(me),
        v.event_queue(s),
        v.event_chain(v.cell(me).z, p),
        crate::dispatch_laws::disjoint(s, p),
        v.all_in_heap(s),
        v.all_in_heap(p),
        v.all_in_heap(seq![me]),
        crate::dispatch_laws::apart(me, s),
        crate::dispatch_laws::apart(me, p),
        crate::dispatch_laws::apart(v.kp(), s),
        crate::dispatch_laws::apart(v.kp(), p),
        crate::dispatch_laws::apart(v.cur_sponsor(), s),
        crate::dispatch_laws::apart(v.cur_sponsor(), p),
        !same_cell(v.kp(), me),
        !same_cell(v.kp(), v.ep()),
        !same_cell(v.kp(), v.ddeque()),
        !same_cell(v.kp(), v.memory()),
        !same_cell(v.kp(), v.cur_sponsor()),
        !same_cell(v.cur_sponsor(), me),
        !same_cell(v.cur_sponsor(), v.ddeque()),
        !same_cell(me, v.ddeque()),
    ensures
        ({
            let target = v.stack_items()[0];
            let msg = v.stack_items()[1];
            let e = v.ram_top();
            let (r, w) = v.send_step(imm);
            &&& r == Ok::<(), Error>(())
            &&& w.cell(me) == (Quad { z: e, ..v.cell(me) })
            &&& w.cell(e).t == v.cur_sponsor()
            &&& w.cell(e).x == target
            &&& w.cell(e).y == msg
            &&& w.event_chain(e, seq![e] + p)
            &&& w.event_queue(s)
        }),
{
    lemma_send_effects(v, imm, me, s, p);
    lemma_send_unfold(v, imm, v.stack_items()[0], v.stack_items()[1], me);
}

/// Picking the `n`-th element of a proper list (counting from 1) gives its
/// `n`-th item, or `UNDEF` past its end.
pub proof fn lemma_nth_item_items(v: CoreView, p: Any, n: int)
    requires
        v.spine(p, WALK_MAX as nat).len() < WALK_MAX,
        n >= 1,
    ensures
        v.nth_item(p, n) == (if n <= v.items(p).len() { v.items(p)[n - 1] } else { UNDEF }),
    decreases n,
{
    let big = WALK_MAX as nat;
    if v.typeq(PAIR_T, p) {
        let y = v.cell(p).y;
        assert(v.spine(p, big) == seq![p] + v.spine(y, (big - 1) as nat));
        lemma_spine_settled(v, y, (big - 1) as nat, big);
        assert(v.items(p) =~= seq![v.cell(p).x] + v.items(y));
        if n > 1 {
            lemma_nth_item_items(v, y, n - 1);
        }
    } else {
        assert(v.items(p) =~= Seq::<Any>::empty());
    }
}

/// `VM_PICK n` (with `0 < n < 64`) pushes a copy of the stack's `n`-th item
/// (counting from 1 at the top; `UNDEF` past the bottom) and continues at
/// `kip`; the new top pair holds the copy in front of the old stack. Shown
/// when the push succeeds with a cell that is neither the queue descriptor,
/// the continuation, the sponsor's cell nor the memory descriptor.
pub proof fn law_perform_pick(v: CoreView, ip: Any)
    requires
        v.wf(),
        v.stack_ok(),
        spec_is_ptr(ip),
        readable(ip),
        v.cell(ip).t == INSTR_T,
        v.cell(ip).x == crate::value::VM_PICK,
        spec_is_fix(v.cell(ip).y),
        0 < crate::value::fix_val(v.cell(ip).y) < 64,
        v.fresh_alloc(),
        v.alloc_spares(v.ddeque()),
        v.alloc_spares(v.kp()),
    ensures
        ({
            let n = crate::value::fix_val(v.cell(ip).y);
            let st = v.stack_items();
            let (r, w) = v.perform_step(ip);
            r is Ok ==> ({
                &&& r == Ok::<Any, Error>(v.cell(ip).z)
                &&& w.kp() == v.kp()
                &&& w.typeq(PAIR_T, w.sp())
                &&& w.car(w.sp()) == (if n <= st.len() { st[n - 1] } else { UNDEF })
                &&& w.cdr(w.sp()) == v.sp()
            })
        }),
{
    let n = crate::value::fix_val(v.cell(ip).y);
    let val = v.extract(v.sp(), n);
    lemma_nth_item_items(v, v.sp(), n);
    assert(v.perform_step(ip) == crate::interp::then_next(v.push_step(val), v.cell(ip).z));
    if v.push_step(val).0 is Ok {
        assert(valid(val)) by {
            crate::lists::lemma_spine_valid(v, v.sp(), WALK_MAX as nat);
            if n <= v.stack_items().len() {
                crate::lists::lemma_cell_fields_valid(v, v.spine(v.sp(), WALK_MAX as nat)[n - 1]);
            }
        }
        crate::laws::law_stack_push_pop(v, val);
    }
}

} // verus!
