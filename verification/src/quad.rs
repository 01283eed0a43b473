//! Quad-cells: the unit of memory, four values `t`, `x`, `y`, `z`.
use vstd::prelude::*;
use crate::value::{
    Any, spec_is_fix, mut_bit, spec_ofs, UNDEF, NIL, LITERAL_T, TYPE_T, PAIR_T, DICT_T, FREE_T,
    GC_FWD_T, ACTOR_T, INSTR_T, VM_TYPEQ, VM_DICT, VM_DEQUE, VM_PAIR, VM_PART, VM_NTH, VM_PUSH,
    VM_DEPTH, VM_DROP, VM_PICK, VM_DUP, VM_ROLL, VM_ALU, VM_EQ, VM_CMP, VM_IF, VM_MSG, VM_MY,
    VM_SEND, VM_NEW, VM_BEH, VM_END, VM_IS_EQ, VM_IS_NE, DICT_HAS, DICT_GET, DICT_ADD, DICT_SET,
    DICT_DEL, DEQUE_NEW, DEQUE_EMPTY, DEQUE_PUSH, DEQUE_POP, DEQUE_PUT, DEQUE_PULL, DEQUE_LEN,
    ALU_NOT, ALU_AND, ALU_OR, ALU_XOR, ALU_ADD, ALU_SUB, ALU_MUL, CMP_EQ, CMP_GE, CMP_GT, CMP_LT,
    CMP_LE, CMP_NE, MY_SELF, MY_BEH, MY_STATE, END_ABORT, END_STOP, END_COMMIT, END_RELEASE,
};

verus! {

/// A memory cell of four values.
#[derive(Clone, Copy, PartialEq, Eq, Structural, Debug)]
pub struct Quad {
    pub t: Any,
    pub x: Any,
    pub y: Any,
    pub z: Any,
}

/// Number of quad-cells of ROM.
pub const QUAD_ROM_MAX: usize = 1024;
/// Number of quad-cells in each RAM bank.
pub const QUAD_RAM_MAX: usize = 256;

/// A value that refers to no cell outside memory: a fixnum, or a reference
/// whose offset lies inside ROM or inside a RAM bank.
pub open spec fn valid(a: Any) -> bool {
    spec_is_fix(a) || (if mut_bit(a) {
        spec_ofs(a) < QUAD_RAM_MAX
    } else {
        spec_ofs(a) < QUAD_ROM_MAX
    })
}

pub open spec fn valid_quad(q: Quad) -> bool {
    valid(q.t) && valid(q.x) && valid(q.y) && valid(q.z)
}

pub open spec fn mk(t: Any, x: Any, y: Any, z: Any) -> Quad {
    Quad { t, x, y, z }
}

pub open spec fn instr(op: Any, imm: Any, k: Any) -> Quad {
    Quad { t: INSTR_T, x: op, y: imm, z: k }
}

impl Quad {
    pub fn new(t: Any, x: Any, y: Any, z: Any) -> (q: Quad)
        ensures
            q == mk(t, x, y, z),
    {
        Quad { t, x, y, z }
    }

    pub fn t(&self) -> (r: Any)
        ensures
            r == self.t,
    {
        self.t
    }

    pub fn x(&self) -> (r: Any)
        ensures
            r == self.x,
    {
        self.x
    }

    pub fn y(&self) -> (r: Any)
        ensures
            r == self.y,
    {
        self.y
    }

    pub fn z(&self) -> (r: Any)
        ensures
            r == self.z,
    {
        self.z
    }

    pub fn set_t(&mut self, v: Any)
        ensures
            *final(self) == (Quad { t: v, ..*old(self) }),
    {
        self.t = v;
    }

    pub fn set_x(&mut self, v: Any)
        ensures
            *final(self) == (Quad { x: v, ..*old(self) }),
    {
        self.x = v;
    }

    pub fn set_y(&mut self, v: Any)
        ensures
            *final(self) == (Quad { y: v, ..*old(self) }),
    {
        self.y = v;
    }

    pub fn set_z(&mut self, v: Any)
        ensures
            *final(self) == (Quad { z: v, ..*old(self) }),
    {
        self.z = v;
    }

    pub fn empty_t() -> (q: Quad)
        ensures
            q == mk(UNDEF, UNDEF, UNDEF, UNDEF),
    {
        Quad::new(UNDEF, UNDEF, UNDEF, UNDEF)
    }

    pub fn literal_t() -> (q: Quad)
        ensures
            q == mk(LITERAL_T, UNDEF, UNDEF, UNDEF),
    {
        Quad::new(LITERAL_T, UNDEF, UNDEF, UNDEF)
    }

    pub fn type_t() -> (q: Quad)
        ensures
            q == mk(TYPE_T, UNDEF, UNDEF, UNDEF),
    {
        Quad::new(TYPE_T, UNDEF, UNDEF, UNDEF)
    }

    pub fn pair_t(car: Any, cdr: Any) -> (q: Quad)
        ensures
            q == mk(PAIR_T, car, cdr, UNDEF),
    {
        Quad::new(PAIR_T, car, cdr, UNDEF)
    }

    pub fn dict_t(key: Any, value: Any, next: Any) -> (q: Quad)
        ensures
            q == mk(DICT_T, key, value, next),
    {
        Quad::new(DICT_T, key, value, next)
    }

    pub fn free_t(next: Any) -> (q: Quad)
        ensures
            q == mk(FREE_T, UNDEF, UNDEF, next),
    {
        Quad::new(FREE_T, UNDEF, UNDEF, next)
    }

    pub fn gc_fwd_t(to: Any) -> (q: Quad)
        ensures
            q == mk(GC_FWD_T, UNDEF, UNDEF, to),
    {
        Quad::new(GC_FWD_T, UNDEF, UNDEF, to)
    }

    /// Memory descriptor: top of heap, free-list head, free-cell count, GC root.
    pub fn memory_t(top: Any, next: Any, free: Any, root: Any) -> (q: Quad)
        ensures
            q == mk(top, next, free, root),
    {
        Quad::new(top, next, free, root)
    }

    /// Dual-deque: event queue (first, last) and continuation queue (first, last).
    pub fn ddeque_t(e_first: Any, e_last: Any, k_first: Any, k_last: Any) -> (q: Quad)
        ensures
            q == mk(e_first, e_last, k_first, k_last),
    {
        Quad::new(e_first, e_last, k_first, k_last)
    }

    pub fn actor_t(beh: Any, state: Any, events: Any) -> (q: Quad)
        ensures
            q == mk(ACTOR_T, beh, state, events),
    {
        Quad::new(ACTOR_T, beh, state, events)
    }

    pub fn new_actor(beh: Any, state: Any) -> (q: Quad)
        ensures
            q == mk(ACTOR_T, beh, state, UNDEF),
    {
        Quad::actor_t(beh, state, UNDEF)
    }

    /// Sponsor: memory, event and instruction limits.
    pub fn sponsor_t(memory: Any, events: Any, instrs: Any) -> (q: Quad)
        ensures
            q == mk(memory, events, instrs, UNDEF),
    {
        Quad::new(memory, events, instrs, UNDEF)
    }

    pub fn new_event(sponsor: Any, target: Any, msg: Any) -> (q: Quad)
        ensures
            q == mk(sponsor, target, msg, NIL),
    {
        Quad::new(sponsor, target, msg, NIL)
    }

    pub fn new_cont(ip: Any, sp: Any, ep: Any) -> (q: Quad)
        ensures
            q == mk(ip, sp, ep, NIL),
    {
        Quad::new(ip, sp, ep, NIL)
    }

    pub fn vm(op: Any, imm: Any, k: Any) -> (q: Quad)
        ensures
            q == instr(op, imm, k),
    {
        Quad::new(INSTR_T, op, imm, k)
    }

    pub fn vm_typeq(t: Any, k: Any) -> (q: Quad)
        ensures
            q == instr(VM_TYPEQ, t, k),
    {
        Quad::vm(VM_TYPEQ, t, k)
    }

    pub fn vm_dict_has(k: Any) -> (q: Quad)
        ensures
            q == instr(VM_DICT, DICT_HAS, k),
    {
        Quad::vm(VM_DICT, DICT_HAS, k)
    }

    pub fn vm_dict_get(k: Any) -> (q: Quad)
        ensures
            q == instr(VM_DICT, DICT_GET, k),
    {
        Quad::vm(VM_DICT, DICT_GET, k)
    }

    pub fn vm_dict_add(k: Any) -> (q: Quad)
        ensures
            q == instr(VM_DICT, DICT_ADD, k),
    {
        Quad::vm(VM_DICT, DICT_ADD, k)
    }

    pub fn vm_dict_set(k: Any) -> (q: Quad)
        ensures
            q == instr(VM_DICT, DICT_SET, k),
    {
        Quad::vm(VM_DICT, DICT_SET, k)
    }

    pub fn vm_dict_del(k: Any) -> (q: Quad)
        ensures
            q == instr(VM_DICT, DICT_DEL, k),
    {
        Quad::vm(VM_DICT, DICT_DEL, k)
    }

    pub fn vm_deque_new(k: Any) -> (q: Quad)
        ensures
            q == instr(VM_DEQUE, DEQUE_NEW, k),
    {
        Quad::vm(VM_DEQUE, DEQUE_NEW, k)
    }

    pub fn vm_deque_empty(k: Any) -> (q: Quad)
        ensures
            q == instr(VM_DEQUE, DEQUE_EMPTY, k),
    {
        Quad::vm(VM_DEQUE, DEQUE_EMPTY, k)
    }

    pub fn vm_deque_push(k: Any) -> (q: Quad)
        ensures
            q == instr(VM_DEQUE, DEQUE_PUSH, k),
    {
        Quad::vm(VM_DEQUE, DEQUE_PUSH, k)
    }

    pub fn vm_deque_pop(k: Any) -> (q: Quad)
        ensures
            q == instr(VM_DEQUE, DEQUE_POP, k),
    {
        Quad::vm(VM_DEQUE, DEQUE_POP, k)
    }

    pub fn vm_deque_put(k: Any) -> (q: Quad)
        ensures
            q == instr(VM_DEQUE, DEQUE_PUT, k),
    {
        Quad::vm(VM_DEQUE, DEQUE_PUT, k)
    }

    pub fn vm_deque_pull(k: Any) -> (q: Quad)
        ensures
            q == instr(VM_DEQUE, DEQUE_PULL, k),
    {
        Quad::vm(VM_DEQUE, DEQUE_PULL, k)
    }

    pub fn vm_deque_len(k: Any) -> (q: Quad)
        ensures
            q == instr(VM_DEQUE, DEQUE_LEN, k),
    {
        Quad::vm(VM_DEQUE, DEQUE_LEN, k)
    }

    pub fn vm_pair(n: Any, k: Any) -> (q: Quad)
        ensures
            q == instr(VM_PAIR, n, k),
    {
        Quad::vm(VM_PAIR, n, k)
    }

    pub fn vm_part(n: Any, k: Any) -> (q: Quad)
        ensures
            q == instr(VM_PART, n, k),
    {
        Quad::vm(VM_PART, n, k)
    }

    pub fn vm_nth(n: Any, k: Any) -> (q: Quad)
        ensures
            q == instr(VM_NTH, n, k),
    {
        Quad::vm(VM_NTH, n, k)
    }

    pub fn vm_push(v: Any, k: Any) -> (q: Quad)
        ensures
            q == instr(VM_PUSH, v, k),
    {
        Quad::vm(VM_PUSH, v, k)
    }

    pub fn vm_depth(k: Any) -> (q: Quad)
        ensures
            q == instr(VM_DEPTH, UNDEF, k),
    {
        Quad::vm(VM_DEPTH, UNDEF, k)
    }

    pub fn vm_drop(n: Any, k: Any) -> (q: Quad)
        ensures
            q == instr(VM_DROP, n, k),
    {
        Quad::vm(VM_DROP, n, k)
    }

    pub fn vm_pick(n: Any, k: Any) -> (q: Quad)
        ensures
            q == instr(VM_PICK, n, k),
    {
        Quad::vm(VM_PICK, n, k)
    }

    pub fn vm_dup(n: Any, k: Any) -> (q: Quad)
        ensures
            q == instr(VM_DUP, n, k),
    {
        Quad::vm(VM_DUP, n, k)
    }

    pub fn vm_roll(n: Any, k: Any) -> (q: Quad)
        ensures
            q == instr(VM_ROLL, n, k),
    {
        Quad::vm(VM_ROLL, n, k)
    }

    pub fn vm_alu_not(k: Any) -> (q: Quad)
        ensures
            q == instr(VM_ALU, ALU_NOT, k),
    {
        Quad::vm(VM_ALU, ALU_NOT, k)
    }

    pub fn vm_alu_and(k: Any) -> (q: Quad)
        ensures
            q == instr(VM_ALU, ALU_AND, k),
    {
        Quad::vm(VM_ALU, ALU_AND, k)
    }

    pub fn vm_alu_or(k: Any) -> (q: Quad)
        ensures
            q == instr(VM_ALU, ALU_OR, k),
    {
        Quad::vm(VM_ALU, ALU_OR, k)
    }

    pub fn vm_alu_xor(k: Any) -> (q: Quad)
        ensures
            q == instr(VM_ALU, ALU_XOR, k),
    {
        Quad::vm(VM_ALU, ALU_XOR, k)
    }

    pub fn vm_alu_add(k: Any) -> (q: Quad)
        ensures
            q == instr(VM_ALU, ALU_ADD, k),
    {
        Quad::vm(VM_ALU, ALU_ADD, k)
    }

    pub fn vm_alu_sub(k: Any) -> (q: Quad)
        ensures
            q == instr(VM_ALU, ALU_SUB, k),
    {
        Quad::vm(VM_ALU, ALU_SUB, k)
    }

    pub fn vm_alu_mul(k: Any) -> (q: Quad)
        ensures
            q == instr(VM_ALU, ALU_MUL, k),
    {
        Quad::vm(VM_ALU, ALU_MUL, k)
    }

    pub fn vm_eq(v: Any, k: Any) -> (q: Quad)
        ensures
            q == instr(VM_EQ, v, k),
    {
        Quad::vm(VM_EQ, v, k)
    }

    pub fn vm_cmp_eq(k: Any) -> (q: Quad)
        ensures
            q == instr(VM_CMP, CMP_EQ, k),
    {
        Quad::vm(VM_CMP, CMP_EQ, k)
    }

    pub fn vm_cmp_ge(k: Any) -> (q: Quad)
        ensures
            q == instr(VM_CMP, CMP_GE, k),
    {
        Quad::vm(VM_CMP, CMP_GE, k)
    }

    pub fn vm_cmp_gt(k: Any) -> (q: Quad)
        ensures
            q == instr(VM_CMP, CMP_GT, k),
    {
        Quad::vm(VM_CMP, CMP_GT, k)
    }

    pub fn vm_cmp_lt(k: Any) -> (q: Quad)
        ensures
            q == instr(VM_CMP, CMP_LT, k),
    {
        Quad::vm(VM_CMP, CMP_LT, k)
    }

    pub fn vm_cmp_le(k: Any) -> (q: Quad)
        ensures
            q == instr(VM_CMP, CMP_LE, k),
    {
        Quad::vm(VM_CMP, CMP_LE, k)
    }

    pub fn vm_cmp_ne(k: Any) -> (q: Quad)
        ensures
            q == instr(VM_CMP, CMP_NE, k),
    {
        Quad::vm(VM_CMP, CMP_NE, k)
    }

    pub fn vm_if(t: Any, f: Any) -> (q: Quad)
        ensures
            q == instr(VM_IF, t, f),
    {
        Quad::vm(VM_IF, t, f)
    }

    pub fn vm_msg(n: Any, k: Any) -> (q: Quad)
        ensures
            q == instr(VM_MSG, n, k),
    {
        Quad::vm(VM_MSG, n, k)
    }

    pub fn vm_my_self(k: Any) -> (q: Quad)
        ensures
            q == instr(VM_MY, MY_SELF, k),
    {
        Quad::vm(VM_MY, MY_SELF, k)
    }

    pub fn vm_my_beh(k: Any) -> (q: Quad)
        ensures
            q == instr(VM_MY, MY_BEH, k),
    {
        Quad::vm(VM_MY, MY_BEH, k)
    }

    pub fn vm_my_state(k: Any) -> (q: Quad)
        ensures
            q == instr(VM_MY, MY_STATE, k),
    {
        Quad::vm(VM_MY, MY_STATE, k)
    }

    pub fn vm_send(n: Any, k: Any) -> (q: Quad)
        ensures
            q == instr(VM_SEND, n, k),
    {
        Quad::vm(VM_SEND, n, k)
    }

    pub fn vm_new(n: Any, k: Any) -> (q: Quad)
        ensures
            q == instr(VM_NEW, n, k),
    {
        Quad::vm(VM_NEW, n, k)
    }

    pub fn vm_beh(n: Any, k: Any) -> (q: Quad)
        ensures
            q == instr(VM_BEH, n, k),
    {
        Quad::vm(VM_BEH, n, k)
    }

    pub fn vm_end_abort() -> (q: Quad)
        ensures
            q == instr(VM_END, END_ABORT, UNDEF),
    {
        Quad::vm(VM_END, END_ABORT, UNDEF)
    }

    pub fn vm_end_stop() -> (q: Quad)
        ensures
            q == instr(VM_END, END_STOP, UNDEF),
    {
        Quad::vm(VM_END, END_STOP, UNDEF)
    }

    pub fn vm_end_commit() -> (q: Quad)
        ensures
            q == instr(VM_END, END_COMMIT, UNDEF),
    {
        Quad::vm(VM_END, END_COMMIT, UNDEF)
    }

    pub fn vm_end_release() -> (q: Quad)
        ensures
            q == instr(VM_END, END_RELEASE, UNDEF),
    {
        Quad::vm(VM_END, END_RELEASE, UNDEF)
    }

    pub fn vm_is_eq(v: Any, k: Any) -> (q: Quad)
        ensures
            q == instr(VM_IS_EQ, v, k),
    {
        Quad::vm(VM_IS_EQ, v, k)
    }

    pub fn vm_is_ne(v: Any, k: Any) -> (q: Quad)
        ensures
            q == instr(VM_IS_NE, v, k),
    {
        Quad::vm(VM_IS_NE, v, k)
    }
}

} // verus!

verus! {

/// Does the value refer to no cell outside memory? (exec form of `valid`)
pub fn is_valid(a: Any) -> (r: bool)
    ensures
        r == valid(a),
{
    if crate::value::is_fix(a) {
        true
    } else if crate::value::is_ram(a) || (a & crate::value::MUT_RAW) != 0 {
        proof {
            crate::value::lemma_raw_bits(a);
        }
        crate::value::ofs(a) < QUAD_RAM_MAX
    } else {
        proof {
            crate::value::lemma_raw_bits(a);
        }
        crate::value::ofs(a) < QUAD_ROM_MAX
    }
}

/// Are all four fields valid? (exec form of `valid_quad`)
pub fn is_valid_quad(q: Quad) -> (r: bool)
    ensures
        r == valid_quad(q),
{
    is_valid(q.t) && is_valid(q.x) && is_valid(q.y) && is_valid(q.z)
}

} // verus!
