//! What the comparison and arithmetic instructions compute, stated by the
//! arithmetic itself: `VM_CMP` answers `TRUE` exactly when its relation holds
//! between the deeper item and the top one, and a binary `VM_ALU` pushes the
//! sum, difference, product or bitwise combination of the two.
use vstd::prelude::*;
use crate::value::{
    Any, Error, spec_is_fix, fix_val, spec_fix, wrap31, PAIR_T, INSTR_T, UNDEF, TRUE, FALSE, DIR_RAW,
    VM_CMP, VM_ALU, ALU_NOT, ALU_AND, ALU_OR, ALU_XOR, ALU_ADD, ALU_SUB, ALU_MUL, CMP_EQ, CMP_GE,
    CMP_GT, CMP_LT, CMP_LE, CMP_NE, spec_is_ptr, VM_MY, MY_SELF, MY_BEH,
};
use crate::quad::{Quad, valid, mk};
use crate::cpu::{CoreView, readable, writable};
use crate::lists::WALK_MAX;
use crate::laws::lemma_spine_links;
use crate::op_laws::{law_stack_pop_takes_top, lemma_set_sp_keeps_alloc};

verus! {

/// Popping the top two items and pushing `x`: both pops give the top two
/// items, the push succeeds, and the new top pair holds `x` in front of the
/// list below the two.
#[verifier::spinoff_prover]
#[verifier::rlimit(60)]
pub proof fn lemma_pop_pop_push(v: CoreView, x: Any)
    requires
        v.wf(),
        v.stack_ok(),
        v.list_len(v.sp()) >= 2,
        valid(x),
        v.alloc_outcome(mk(PAIR_T, UNDEF, UNDEF, UNDEF)) is Ok,
        v.fresh_alloc(),
        v.alloc_spares(v.ddeque()),
        v.alloc_spares(v.kp()),
    ensures
        ({
            let s = v.stack_items();
            let v1 = v.pop_step().1;
            let v2 = v1.pop_step().1;
            let w = v2.push_step(x).1;
            &&& v.pop_step().0 == Ok::<Any, Error>(s[0])
            &&& v1.pop_step().0 == Ok::<Any, Error>(s[1])
            &&& v2.push_step(x).0 == Ok::<(), Error>(())
            &&& w.kp() == v.kp()
            &&& w.typeq(PAIR_T, w.sp())
            &&& w.car(w.sp()) == x
            &&& w.cdr(w.sp()) == v.cdr(v.cdr(v.sp()))
        }),
{
    let s = v.stack_items();
    law_stack_pop_takes_top(v);
    let v1 = v.pop_step().1;
    let c1 = v.cdr(v.sp());
    assert(v1.stack_items() == s.drop_first());
    lemma_spine_links(v, v.sp(), WALK_MAX as nat);
    crate::lists::lemma_spine_valid(v, v.sp(), WALK_MAX as nat);
    assert(writable(v.kp()));
    let init = mk(PAIR_T, x, v.cdr(c1), UNDEF);
    crate::lists::lemma_cell_fields_valid(v, v.sp());
    lemma_set_sp_keeps_alloc(v, c1, init);
    v.lemma_set_cell_keeps_types(v.kp(), Quad { x: c1, ..v.cell(v.kp()) });
    assert(v1.stack_ok()) by {
        assert(v1.list_len(v1.sp()) == v1.stack_items().len());
    }
    law_stack_pop_takes_top(v1);
    let v2 = v1.pop_step().1;
    assert(v1.stack_items().len() > 0);
    assert(v1.pop_step().0 == Ok::<Any, Error>(s[1]));
    let c2 = v1.cdr(c1);
    assert(c2 == v.cdr(c1)) by {
        assert(v1.cell(c1).y == v.cell(c1).y);
    }
    crate::lists::lemma_spine_valid(v1, c1, WALK_MAX as nat);
    lemma_spine_links(v1, c1, WALK_MAX as nat);
    crate::lists::lemma_cell_fields_valid(v1, c1);
    lemma_set_sp_keeps_alloc(v1, c2, init);
    assert(v.alloc_outcome(init) == v.alloc_outcome(mk(PAIR_T, UNDEF, UNDEF, UNDEF)));
    v2.lemma_alloc_cell(init, v2.ddeque());
    crate::value::lemma_ram_ptr(v2.phase(), 1);
    assert(v2.push_step(x).0 is Ok);
    crate::laws::law_stack_push_pop(v2, x);
}

/// `VM_CMP` pops the top item `b` and the item `a` below it and pushes
/// `TRUE` or `FALSE`: equality and difference for any values; for two
/// fixnums, whether `a >= b`, `a > b`, `a < b` or `a <= b` as integers (the
/// deeper item on the left); `FALSE` for an ordering of anything else. The
/// new top pair holds the answer in front of the list below the two.
pub proof fn law_perform_cmp(v: CoreView, ip: Any)
    requires
        v.wf(),
        v.stack_ok(),
        spec_is_ptr(ip),
        readable(ip),
        v.cell(ip).t == INSTR_T,
        v.cell(ip).x == VM_CMP,
        v.list_len(v.sp()) >= 2,
        v.alloc_outcome(mk(PAIR_T, UNDEF, UNDEF, UNDEF)) is Ok,
        v.fresh_alloc(),
        v.alloc_spares(v.ddeque()),
        v.alloc_spares(v.kp()),
    ensures
        ({
            let s = v.stack_items();
            let a = s[1];
            let b = s[0];
            let imm = v.cell(ip).y;
            let (r, w) = v.perform_step(ip);
            let top = w.car(w.sp());
            let fixes = spec_is_fix(a) && spec_is_fix(b);
            &&& r == Ok::<Any, Error>(v.cell(ip).z)
            &&& w.typeq(PAIR_T, w.sp())
            &&& w.cdr(w.sp()) == v.cdr(v.cdr(v.sp()))
            &&& top == TRUE || top == FALSE
            &&& imm == CMP_EQ ==> (top == TRUE <==> a == b)
            &&& imm == CMP_NE ==> (top == TRUE <==> a != b)
            &&& fixes && imm == CMP_GE ==> (top == TRUE <==> fix_val(a) >= fix_val(b))
            &&& fixes && imm == CMP_GT ==> (top == TRUE <==> fix_val(a) > fix_val(b))
            &&& fixes && imm == CMP_LT ==> (top == TRUE <==> fix_val(a) < fix_val(b))
            &&& fixes && imm == CMP_LE ==> (top == TRUE <==> fix_val(a) <= fix_val(b))
            &&& !fixes && (imm == CMP_GE || imm == CMP_GT || imm == CMP_LT || imm == CMP_LE) ==> top == FALSE
        }),
{
    let s = v.stack_items();
    let imm = v.cell(ip).y;
    let x = crate::interp::bool_val(crate::interp::compare_result(imm, s[1], s[0]));
    lemma_pop_pop_push(v, x);
}

/// A binary `VM_ALU` pops the top item `b` and the item `a` below it and
/// pushes, for two fixnums, `a & b`, `a | b`, `a ^ b` (as a fixnum), or the
/// sum `a + b`, difference `a - b` or product `a * b` wrapped to 31 bits
/// (the deeper item on the left); `UNDEF` for anything else. The new top
/// pair holds the result in front of the list below the two.
pub proof fn law_perform_alu_values(v: CoreView, ip: Any)
    requires
        v.wf(),
        v.stack_ok(),
        spec_is_ptr(ip),
        readable(ip),
        v.cell(ip).t == INSTR_T,
        v.cell(ip).x == VM_ALU,
        v.cell(ip).y != ALU_NOT,
        v.list_len(v.sp()) >= 2,
        v.alloc_outcome(mk(PAIR_T, UNDEF, UNDEF, UNDEF)) is Ok,
        v.fresh_alloc(),
        v.alloc_spares(v.ddeque()),
        v.alloc_spares(v.kp()),
    ensures
        ({
            let s = v.stack_items();
            let a = s[1];
            let b = s[0];
            let imm = v.cell(ip).y;
            let (r, w) = v.perform_step(ip);
            let top = w.car(w.sp());
            let fixes = spec_is_fix(a) && spec_is_fix(b);
            &&& r == Ok::<Any, Error>(v.cell(ip).z)
            &&& w.typeq(PAIR_T, w.sp())
            &&& w.cdr(w.sp()) == v.cdr(v.cdr(v.sp()))
            &&& !fixes ==> top == UNDEF
            &&& fixes && imm == ALU_AND ==> top == a & b
            &&& fixes && imm == ALU_OR ==> top == a | b
            &&& fixes && imm == ALU_XOR ==> top == (a ^ b) | DIR_RAW
            &&& fixes && imm == ALU_ADD ==> spec_is_fix(top) && fix_val(top) == wrap31(fix_val(a) + fix_val(b))
            &&& fixes && imm == ALU_SUB ==> spec_is_fix(top) && fix_val(top) == wrap31(fix_val(a) - fix_val(b))
            &&& fixes && imm == ALU_MUL ==> spec_is_fix(top) && fix_val(top) == wrap31(fix_val(a) * fix_val(b))
            &&& !(imm == ALU_AND || imm == ALU_OR || imm == ALU_XOR || imm == ALU_ADD || imm == ALU_SUB
                || imm == ALU_MUL) ==> top == UNDEF
        }),
{
    let s = v.stack_items();
    let imm = v.cell(ip).y;
    let x = crate::interp::alu_result(imm, s[1], s[0]);
    crate::op_laws::lemma_alu_result_valid(imm, s[1], s[0]);
    lemma_pop_pop_push(v, x);
    let a = s[1];
    let b = s[0];
    if spec_is_fix(a) && spec_is_fix(b) {
        if imm == ALU_ADD {
            lemma_wrap_fix(fix_val(a) + fix_val(b));
        } else if imm == ALU_SUB {
            lemma_wrap_fix(fix_val(a) - fix_val(b));
        } else if imm == ALU_MUL {
            lemma_wrap_fix(fix_val(a) * fix_val(b));
        }
    }
}

/// Wrapping to 31 bits gives a fixnum that reads back as the wrapped value.
pub proof fn lemma_wrap_fix(n: int)
    ensures
        spec_is_fix(spec_fix(wrap31(n))),
        fix_val(spec_fix(wrap31(n))) == wrap31(n),
{
    crate::value::lemma_fix_roundtrip(wrap31(n));
}

/// `VM_MY` with `MY_SELF` pushes the current event's target (the actor's
/// own capability), and with `MY_BEH` the actor's behavior (its cell's `x`
/// field); either way the new top pair holds that value in front of the
/// old stack, and the instruction continues at `kip`.
pub proof fn law_perform_my(v: CoreView, ip: Any, me: Any)
    requires
        v.wf(),
        v.stack_ok(),
        spec_is_ptr(ip),
        readable(ip),
        v.cell(ip).t == INSTR_T,
        v.cell(ip).x == VM_MY,
        v.cell(ip).y == MY_SELF || v.cell(ip).y == MY_BEH,
        v.self_ptr_result() == Ok::<Any, Error>(me),
        writable(me),
        writable(v.ep()),
        v.fresh_alloc(),
        v.alloc_spares(v.ddeque()),
        v.alloc_spares(v.kp()),
    ensures
        ({
            let imm = v.cell(ip).y;
            let (r, w) = v.perform_step(ip);
            r is Ok ==> ({
                &&& r == Ok::<Any, Error>(v.cell(ip).z)
                &&& w.kp() == v.kp()
                &&& w.typeq(PAIR_T, w.sp())
                &&& imm == MY_SELF ==> w.car(w.sp()) == v.cell(v.ep()).x
                &&& imm == MY_BEH ==> w.car(w.sp()) == v.cell(me).x
                &&& w.cdr(w.sp()) == v.sp()
            })
        }),
{
    let imm = v.cell(ip).y;
    let val = if imm == MY_SELF { v.cell(v.ep()).x } else { v.cell(me).x };
    assert(v.my_op_step(imm) == v.push_step(val));
    if v.push_step(val).0 is Ok {
        assert(valid(val)) by {
            crate::lists::lemma_cell_fields_valid(v, v.ep());
            crate::lists::lemma_cell_fields_valid(v, me);
        }
        crate::laws::law_stack_push_pop(v, val);
    }
}

} // verus!
