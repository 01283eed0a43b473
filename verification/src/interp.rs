//! The instruction interpreter and the dispatch loop.
//!
//! Devices are outside the core: when an event is addressed to a device, the
//! dispatcher takes it off the queue and hands it out (`Dispatch::Device`),
//! and the caller runs the device and then resumes the loop.
use vstd::prelude::*;
use crate::value::{
    Any, Error, spec_is_fix, spec_is_cap, spec_is_ptr, spec_is_ram, fix_val, spec_fix, is_fix,
    is_cap, is_ptr, is_ram, fix_num, fix, fix_wrap, get_fix, UNDEF, NIL, FALSE, TRUE, UNIT, ZERO,
    DIR_RAW, PAIR_T, ACTOR_T, INSTR_T, VM_TYPEQ, VM_DICT, VM_DEQUE, VM_PAIR, VM_PART, VM_NTH,
    VM_PUSH, VM_DEPTH, VM_DROP, VM_PICK, VM_DUP, VM_ROLL, VM_ALU, VM_EQ, VM_CMP, VM_IF, VM_MSG,
    VM_MY, VM_SEND, VM_NEW, VM_BEH, VM_END, VM_IS_EQ, VM_IS_NE, DICT_HAS, DICT_GET, DICT_ADD,
    DICT_SET, DICT_DEL, DEQUE_NEW, DEQUE_EMPTY, DEQUE_PUSH, DEQUE_POP, DEQUE_PUT, DEQUE_PULL,
    DEQUE_LEN, DICT_T, EMPTY_DQ, E_NOT_FIX, ALU_NOT, ALU_AND, ALU_OR, ALU_XOR, ALU_ADD, ALU_SUB, ALU_MUL, CMP_EQ, CMP_GE,
    CMP_GT, CMP_LT, CMP_LE, CMP_NE, MY_SELF, MY_BEH, MY_STATE, END_ABORT, END_STOP, END_COMMIT,
    END_RELEASE, GC_FWD_T, E_FAIL, E_BOUNDS, E_ASSERT, E_NOT_PTR, E_NOT_RAM, E_CPU_LIM, E_MSG_LIM,
};
use crate::quad::{Quad, mk, valid, valid_quad};
use crate::machine::and_then;
use crate::lists::WALK_MAX;
use crate::value::{wrap31, clear_opq};
use crate::cpu::{Core, CoreView, writable, readable, is_writable, is_readable, lemma_valid_quad_at};

verus! {

/// Number of devices.
pub const DEVICE_MAX: usize = 3;

/// Is the value "falsey": `FALSE`, `UNDEF`, `NIL` or fixnum 0?
pub open spec fn spec_falsey(v: Any) -> bool {
    v == FALSE || v == UNDEF || v == NIL || v == ZERO
}

#[verifier::when_used_as_spec(spec_falsey)]
pub fn falsey(v: Any) -> (r: bool)
    ensures
        r == spec_falsey(v),
{
    v == FALSE || v == UNDEF || v == NIL || v == ZERO
}

/// The boolean value for `b`.
pub open spec fn bool_val(b: bool) -> Any {
    if b {
        TRUE
    } else {
        FALSE
    }
}

fn to_bool(b: bool) -> (r: Any)
    ensures
        r == bool_val(b),
{
    if b {
        TRUE
    } else {
        FALSE
    }
}

/// The value an `end` instruction yields as the next instruction pointer:
/// `UNIT` for abort, `TRUE` for commit, `FALSE` for release.
pub open spec fn end_result(imm: Any) -> Any {
    if imm == END_ABORT {
        UNIT
    } else if imm == END_COMMIT {
        TRUE
    } else {
        FALSE
    }
}

/// What became of an event taken from the event queue.
#[derive(Clone, Copy, PartialEq, Eq, Debug)]
pub enum Dispatch {
    /// No event was dispatched: the queue was empty, or the target actor was
    /// busy and the event went to the back of the queue.
    Idle,
    /// An actor event was dispatched: a continuation now runs the actor's behavior.
    Started,
    /// The event (second field) is addressed to device number (first field);
    /// it has been taken off the queue and the device must handle it.
    Device(usize, Any),
}

/// How a run of the dispatch loop ended.
#[derive(Clone, Copy, PartialEq, Eq, Debug)]
pub enum Run {
    /// The machine stopped: `true` when it ran out of work, `false` on an error.
    Done(bool),
    /// An event for a device was taken off the queue; after the device has
    /// handled it, the loop may be resumed.
    Device(usize, Any),
}

/// What an arithmetic or bitwise operation gives for two values: defined on
/// fixnums only (`UNDEF` otherwise, or for an unknown operation); the
/// arithmetic wraps around to 31 bits.
pub open spec fn alu_result(imm: Any, v: Any, vv: Any) -> Any {
    if !(spec_is_fix(v) && spec_is_fix(vv)) {
        UNDEF
    } else if imm == ALU_AND {
        v & vv
    } else if imm == ALU_OR {
        v | vv
    } else if imm == ALU_XOR {
        (v ^ vv) | DIR_RAW
    } else if imm == ALU_ADD {
        spec_fix(wrap31(fix_val(v) + fix_val(vv)))
    } else if imm == ALU_SUB {
        spec_fix(wrap31(fix_val(v) - fix_val(vv)))
    } else if imm == ALU_MUL {
        spec_fix(wrap31(fix_val(v) * fix_val(vv)))
    } else {
        UNDEF
    }
}

/// The complement of a fixnum (`UNDEF` for any other value).
pub open spec fn not_result(v: Any) -> Any {
    if spec_is_fix(v) {
        spec_fix(-fix_val(v) - 1)
    } else {
        UNDEF
    }
}

/// What a comparison gives: (in)equality of any two values; ordering only
/// between fixnums (false otherwise, or for an unknown comparison).
pub open spec fn compare_result(imm: Any, v: Any, vv: Any) -> bool {
    if imm == CMP_EQ {
        v == vv
    } else if imm == CMP_NE {
        v != vv
    } else if !(spec_is_fix(v) && spec_is_fix(vv)) {
        false
    } else if imm == CMP_GE {
        fix_val(v) >= fix_val(vv)
    } else if imm == CMP_GT {
        fix_val(v) > fix_val(vv)
    } else if imm == CMP_LT {
        fix_val(v) < fix_val(vv)
    } else if imm == CMP_LE {
        fix_val(v) <= fix_val(vv)
    } else {
        false
    }
}

impl CoreView {
    /// The dictionary instructions: pop the operands, push the result.
    pub open spec fn dict_op_step(self, imm: Any) -> (Result<(), Error>, CoreView) {
        if imm == DICT_HAS {
            and_then(self.pop_step(), |key: Any, v1: CoreView|
                and_then(v1.pop_step(), |dict: Any, v2: CoreView|
                    v2.push_step(bool_val(v2.dict_lookup(dict, key, WALK_MAX as nat) is Some))))
        } else if imm == DICT_GET {
            and_then(self.pop_step(), |key: Any, v1: CoreView|
                and_then(v1.pop_step(), |dict: Any, v2: CoreView|
                    v2.push_step(v2.dict_get(dict, key))))
        } else if imm == DICT_ADD {
            and_then(self.pop_step(), |value: Any, v1: CoreView|
                and_then(v1.pop_step(), |key: Any, v2: CoreView|
                    and_then(v2.pop_step(), |dict: Any, v3: CoreView|
                        and_then(
                            (v3.alloc_outcome(mk(DICT_T, key, value, dict)), v3.alloc_state(mk(DICT_T, key, value, dict))),
                            |d: Any, v4: CoreView| v4.push_step(d)))))
        } else if imm == DICT_SET {
            and_then(self.pop_step(), |value: Any, v1: CoreView|
                and_then(v1.pop_step(), |key: Any, v2: CoreView|
                    and_then(v2.pop_step(), |dict: Any, v3: CoreView|
                        and_then(v3.dict_set_step(dict, key, value), |d: Any, v4: CoreView| v4.push_step(d)))))
        } else if imm == DICT_DEL {
            and_then(self.pop_step(), |key: Any, v1: CoreView|
                and_then(v1.pop_step(), |dict: Any, v2: CoreView|
                    and_then(v2.dict_del_step(dict, key, WALK_MAX as nat), |d: Any, v3: CoreView| v3.push_step(d))))
        } else {
            (Err(E_BOUNDS), self)
        }
    }
}

impl CoreView {
    /// The deque instructions: pop the operands, push the results.
    pub open spec fn deque_op_step(self, imm: Any) -> (Result<(), Error>, CoreView) {
        if imm == DEQUE_NEW {
            self.push_step(EMPTY_DQ)
        } else if imm == DEQUE_EMPTY {
            and_then(self.pop_step(), |d: Any, v1: CoreView| v1.push_step(bool_val(v1.deque_empty(d))))
        } else if imm == DEQUE_PUSH {
            and_then(self.pop_step(), |item: Any, v1: CoreView|
                and_then(v1.pop_step(), |d: Any, v2: CoreView|
                    and_then(v2.deque_push_step(d, item), |nd: Any, v3: CoreView| v3.push_step(nd))))
        } else if imm == DEQUE_POP {
            and_then(self.pop_step(), |d: Any, v1: CoreView|
                and_then(v1.deque_pop_step(d), |res: (Any, Any), v2: CoreView|
                    and_then(v2.push_step(res.0), |u: (), v3: CoreView| v3.push_step(res.1))))
        } else if imm == DEQUE_PUT {
            and_then(self.pop_step(), |item: Any, v1: CoreView|
                and_then(v1.pop_step(), |d: Any, v2: CoreView|
                    and_then(v2.deque_put_step(d, item), |nd: Any, v3: CoreView| v3.push_step(nd))))
        } else if imm == DEQUE_PULL {
            and_then(self.pop_step(), |d: Any, v1: CoreView|
                and_then(v1.deque_pull_step(d), |res: (Any, Any), v2: CoreView|
                    and_then(v2.push_step(res.0), |u: (), v3: CoreView| v3.push_step(res.1))))
        } else if imm == DEQUE_LEN {
            and_then(self.pop_step(), |d: Any, v1: CoreView|
                v1.push_step(spec_fix(v1.list_len(v1.car(d)) + v1.list_len(v1.cdr(d)))))
        } else {
            (Err(E_BOUNDS), self)
        }
    }

    /// The `my` instructions: push the current actor's capability, its
    /// behavior, or the elements of its state.
    pub open spec fn my_op_step(self, imm: Any) -> (Result<(), Error>, CoreView) {
        match self.self_ptr_result() {
            Err(e) => (Err(e), self),
            Ok(me) => if imm == MY_SELF {
                if !self.kp_ok() {
                    (Err(E_NOT_PTR), self)
                } else if !writable(self.ep()) {
                    (Err(E_NOT_RAM), self)
                } else {
                    self.push_step(self.cell(self.ep()).x)
                }
            } else if imm == MY_BEH {
                if !writable(me) {
                    (Err(E_NOT_RAM), self)
                } else {
                    self.push_step(self.cell(me).x)
                }
            } else if imm == MY_STATE {
                if !writable(me) {
                    (Err(E_NOT_RAM), self)
                } else {
                    self.push_list_step(self.cell(me).y, WALK_MAX as nat)
                }
            } else {
                (Err(E_BOUNDS), self)
            },
        }
    }

    /// Sending a message: pop the target, then the message (a list of the
    /// top `num` items, or the top item), and add the new event to the front
    /// of the current actor's pending sends.
    pub open spec fn send_step(self, imm: Any) -> (Result<(), Error>, CoreView) {
        let num = fix_val(imm);
        if !spec_is_fix(imm) {
            (Err(E_NOT_FIX), self)
        } else {
            and_then(self.pop_step(), |target: Any, v1: CoreView|
                if !v1.typeq(ACTOR_T, target) {
                    (Err(E_ASSERT), v1)
                } else {
                    and_then(
                        if num > 0 { v1.pop_counted_step(num) } else { v1.pop_step() },
                        |msg: Any, v2: CoreView|
                            and_then(v2.new_event_step(target, msg), |ep: Any, v3: CoreView|
                                match v3.self_ptr_result() {
                                    Err(e) => (Err(e), v3),
                                    Ok(me) => if !writable(me) || !writable(ep) {
                                        (Err(E_NOT_RAM), v3)
                                    } else {
                                        let next = v3.cell(me).z;
                                        let v4 = if spec_is_ram(next) { v3.set_link(ep, next) } else { v3 };
                                        (Ok(()), v4.set_link(me, ep))
                                    },
                                }),
                    )
                })
        }
    }

    /// Creating an actor (`replace == false`) or replacing the current
    /// actor's behavior and state (`replace == true`): pop the behavior, then
    /// the state as a list of the top `num` items.
    pub open spec fn new_beh_step(self, imm: Any, replace: bool) -> (Result<(), Error>, CoreView) {
        if !spec_is_fix(imm) {
            (Err(E_NOT_FIX), self)
        } else {
            and_then(self.pop_step(), |ip: Any, v1: CoreView|
                if !v1.typeq(INSTR_T, ip) {
                    (Err(E_ASSERT), v1)
                } else {
                    and_then(v1.pop_counted_step(fix_val(imm)), |sp: Any, v2: CoreView|
                        if replace {
                            match v2.self_ptr_result() {
                                Err(e) => (Err(e), v2),
                                Ok(me) => {
                                    let actor = Quad { x: ip, y: sp, ..v2.cell(me) };
                                    if !writable(me) {
                                        (Err(E_NOT_RAM), v2)
                                    } else if !valid_quad(actor) {
                                        (Err(E_ASSERT), v2)
                                    } else {
                                        (Ok(()), v2.set_cell(me, actor))
                                    }
                                },
                            }
                        } else {
                            and_then(v2.new_actor_step(ip, sp), |a: Any, v3: CoreView| v3.push_step(a))
                        })
                })
        }
    }

    /// Ending the current actor transaction: abort (popping the reason),
    /// stop, commit, or release (commit, then free the actor).
    pub open spec fn end_step(self, imm: Any) -> (Result<Any, Error>, CoreView) {
        match self.self_ptr_result() {
            Err(e) => (Err(e), self),
            Ok(me) => if imm == END_ABORT {
                and_then(self.pop_step(), |reason: Any, v1: CoreView|
                    and_then(v1.actor_abort_step(me), |u: (), v2: CoreView| (Ok(UNIT), v2)))
            } else if imm == END_STOP {
                (Err(E_FAIL), self)
            } else if imm == END_COMMIT {
                and_then(self.actor_commit_step(me), |u: (), v1: CoreView| (Ok(TRUE), v1))
            } else if imm == END_RELEASE {
                let actor = Quad { y: NIL, ..self.cell(me) };
                if !writable(me) {
                    (Err(E_NOT_RAM), self)
                } else if !valid_quad(actor) {
                    (Err(E_ASSERT), self)
                } else {
                    and_then(self.set_cell(me, actor).actor_commit_step(me), |u: (), v1: CoreView|
                        and_then(v1.try_free_step(me), |u2: (), v2: CoreView| (Ok(FALSE), v2)))
                }
            } else {
                (Err(E_BOUNDS), self)
            },
        }
    }
}

impl Core {
    /// Arithmetic and bitwise operations on two fixnums (`UNDEF` otherwise).
    fn alu(&self, imm: Any, v: Any, vv: Any) -> (r: Any)
        ensures
            valid(r),
            r == alu_result(imm, v, vv),
    {
        match (fix_num(v), fix_num(vv)) {
            (Some(n), Some(nn)) => {
                if imm == ALU_AND {
                    proof {
                        assert((v & vv) >= 0x8000_0000) by (bit_vector)
                            requires
                                v >= 0x8000_0000u32,
                                vv >= 0x8000_0000u32,
                        ;
                    }
                    v & vv
                } else if imm == ALU_OR {
                    proof {
                        assert((v | vv) >= 0x8000_0000) by (bit_vector)
                            requires
                                v >= 0x8000_0000u32,
                        ;
                    }
                    v | vv
                } else if imm == ALU_XOR {
                    proof {
                        assert(((v ^ vv) | 0x8000_0000u32) >= 0x8000_0000) by (bit_vector);
                    }
                    (v ^ vv) | DIR_RAW
                } else if imm == ALU_ADD {
                    fix_wrap(n as i64 + nn as i64)
                } else if imm == ALU_SUB {
                    fix_wrap(n as i64 - nn as i64)
                } else if imm == ALU_MUL {
                    proof {
                        assert(-0x4000_0000 * 0x4000_0000 <= (n as int) * (nn as int) <= 0x4000_0000
                            * 0x4000_0000) by (nonlinear_arith)
                            requires
                                -0x4000_0000 <= n < 0x4000_0000,
                                -0x4000_0000 <= nn < 0x4000_0000,
                        ;
                    }
                    fix_wrap(n as i64 * nn as i64)
                } else {
                    UNDEF
                }
            },
            _ => UNDEF,
        }
    }

    /// The complement of a fixnum (`UNDEF` otherwise).
    fn alu_not(&self, v: Any) -> (r: Any)
        ensures
            valid(r),
            r == not_result(v),
    {
        match fix_num(v) {
            Some(n) => fix(-n - 1),
            None => UNDEF,
        }
    }

    /// Comparison of two values (ordering only between fixnums).
    fn compare(&self, imm: Any, v: Any, vv: Any) -> (r: bool)
        ensures
            r == compare_result(imm, v, vv),
    {
        if imm == CMP_EQ {
            v == vv
        } else if imm == CMP_NE {
            v != vv
        } else {
            match (fix_num(v), fix_num(vv)) {
                (Some(n), Some(nn)) => {
                    if imm == CMP_GE {
                        n >= nn
                    } else if imm == CMP_GT {
                        n > nn
                    } else if imm == CMP_LT {
                        n < nn
                    } else if imm == CMP_LE {
                        n <= nn
                    } else {
                        false
                    }
                },
                _ => false,
            }
        }
    }

    /// The dictionary instructions.
    fn op_dict(&mut self, imm: Any) -> (r: Result<(), Error>)
        requires
            old(self)@.wf(),
        ensures
            final(self)@.wf(),
            r == old(self)@.dict_op_step(imm).0,
            final(self)@ == old(self)@.dict_op_step(imm).1,
    {
        if imm == DICT_HAS {
            let key = self.stack_pop()?;
            let dict = self.stack_pop()?;
            let b = self.dict_has(dict, key);
            self.stack_push(to_bool(b))
        } else if imm == DICT_GET {
            let key = self.stack_pop()?;
            let dict = self.stack_pop()?;
            let v = self.dict_get(dict, key);
            self.stack_push(v)
        } else if imm == DICT_ADD {
            let value = self.stack_pop()?;
            let key = self.stack_pop()?;
            let dict = self.stack_pop()?;
            let d = self.dict_add(dict, key, value)?;
            self.stack_push(d)
        } else if imm == DICT_SET {
            let value = self.stack_pop()?;
            let key = self.stack_pop()?;
            let dict = self.stack_pop()?;
            let d = self.dict_set(dict, key, value)?;
            self.stack_push(d)
        } else if imm == DICT_DEL {
            let key = self.stack_pop()?;
            let dict = self.stack_pop()?;
            let d = self.dict_del(dict, key)?;
            self.stack_push(d)
        } else {
            Err(E_BOUNDS)
        }
    }

    /// The deque instructions.
    fn op_deque(&mut self, imm: Any) -> (r: Result<(), Error>)
        requires
            old(self)@.wf(),
        ensures
            final(self)@.wf(),
            r == old(self)@.deque_op_step(imm).0,
            final(self)@ == old(self)@.deque_op_step(imm).1,
    {
        if imm == DEQUE_NEW {
            let deque = self.deque_new();
            self.stack_push(deque)
        } else if imm == DEQUE_EMPTY {
            let deque = self.stack_pop()?;
            let b = self.deque_empty(deque);
            self.stack_push(to_bool(b))
        } else if imm == DEQUE_PUSH {
            let item = self.stack_pop()?;
            let old = self.stack_pop()?;
            let new = self.deque_push(old, item)?;
            self.stack_push(new)
        } else if imm == DEQUE_POP {
            let old = self.stack_pop()?;
            let (new, item) = self.deque_pop(old)?;
            self.stack_push(new)?;
            self.stack_push(item)
        } else if imm == DEQUE_PUT {
            let item = self.stack_pop()?;
            let old = self.stack_pop()?;
            let new = self.deque_put(old, item)?;
            self.stack_push(new)
        } else if imm == DEQUE_PULL {
            let old = self.stack_pop()?;
            let (new, item) = self.deque_pull(old)?;
            self.stack_push(new)?;
            self.stack_push(item)
        } else if imm == DEQUE_LEN {
            let deque = self.stack_pop()?;
            let n = self.deque_len(deque);
            self.stack_push(fix(n))
        } else {
            Err(E_BOUNDS)
        }
    }

    /// The `my` instructions: push the current actor's capability, behavior,
    /// or the elements of its state.
    fn op_my(&mut self, imm: Any) -> (r: Result<(), Error>)
        requires
            old(self)@.wf(),
        ensures
            final(self)@.wf(),
            r == old(self)@.my_op_step(imm).0,
            final(self)@ == old(self)@.my_op_step(imm).1,
    {
        let me = self.self_ptr()?;
        if imm == MY_SELF {
            let kp = self.kp();
            if is_ram(kp) && is_cap(kp) {
                return Err(E_NOT_PTR);
            }
            let ep = self.ep();
            if !is_writable(ep) {
                return Err(E_NOT_RAM);
            }
            let target = self.ram(ep).x;
            self.stack_push(target)
        } else if imm == MY_BEH {
            if !is_writable(me) {
                return Err(E_NOT_RAM);
            }
            let beh = self.ram(me).x;
            self.stack_push(beh)
        } else if imm == MY_STATE {
            if !is_writable(me) {
                return Err(E_NOT_RAM);
            }
            let state = self.ram(me).y;
            self.push_list(state, crate::lists::WALK_MAX)
        } else {
            Err(E_BOUNDS)
        }
    }

    /// Send a message: pop the target, then the message (a list of the top
    /// `num` items, or the top item), and add the event to the current
    /// actor's pending sends.
    fn op_send(&mut self, imm: Any) -> (r: Result<(), Error>)
        requires
            old(self)@.wf(),
        ensures
            final(self)@.wf(),
            r == old(self)@.send_step(imm).0,
            final(self)@ == old(self)@.send_step(imm).1,
    {
        let num = get_fix(imm)?;
        let target = self.stack_pop()?;
        if !self.typeq(ACTOR_T, target) {
            return Err(E_ASSERT);
        }
        let msg = if num > 0 {
            self.pop_counted(num)?
        } else {
            self.stack_pop()?
        };
        let ep = self.new_event(target, msg)?;
        let me = self.self_ptr()?;
        if !is_writable(me) || !is_writable(ep) {
            return Err(E_NOT_RAM);
        }
        let next = self.ram(me).z;
        if is_ram(next) {
            self.set_link(ep, next);
        }
        self.set_link(me, ep);
        Ok(())
    }

    /// Create an actor (`replace == false`) or replace the current actor's
    /// behavior and state (`replace == true`): pop the behavior, then the
    /// state as a list of the top `num` items.
    fn op_new_beh(&mut self, imm: Any, replace: bool) -> (r: Result<(), Error>)
        requires
            old(self)@.wf(),
        ensures
            final(self)@.wf(),
            r == old(self)@.new_beh_step(imm, replace).0,
            final(self)@ == old(self)@.new_beh_step(imm, replace).1,
    {
        let num = get_fix(imm)?;
        let ip = self.stack_pop()?;
        if !self.typeq(INSTR_T, ip) {
            return Err(E_ASSERT);
        }
        let sp = self.pop_counted(num)?;
        if replace {
            let me = self.self_ptr()?;
            if !is_writable(me) {
                return Err(E_NOT_RAM);
            }
            let mut actor = self.ram(me);
            actor.x = ip;
            actor.y = sp;
            if !crate::quad::is_valid_quad(actor) {
                return Err(E_ASSERT);
            }
            proof {
                lemma_valid_quad_at(me, actor);
            }
            self.ram_mut(me, actor);
            Ok(())
        } else {
            let a = self.new_actor(ip, sp)?;
            self.stack_push(a)
        }
    }

    /// End the current actor transaction.
    fn op_end(&mut self, imm: Any) -> (r: Result<Any, Error>)
        requires
            old(self)@.wf(),
        ensures
            final(self)@.wf(),
            r == old(self)@.end_step(imm).0,
            final(self)@ == old(self)@.end_step(imm).1,
            r matches Ok(n) ==> n == end_result(imm),
    {
        let me = self.self_ptr()?;
        if imm == END_ABORT {
            let _reason = self.stack_pop()?;
            self.actor_abort(me)?;
            Ok(UNIT)
        } else if imm == END_STOP {
            Err(E_FAIL)
        } else if imm == END_COMMIT {
            self.actor_commit(me)?;
            Ok(TRUE)
        } else if imm == END_RELEASE {
            if !is_writable(me) {
                return Err(E_NOT_RAM);
            }
            let mut actor = self.ram(me);
            actor.y = NIL;
            if !crate::quad::is_valid_quad(actor) {
                return Err(E_ASSERT);
            }
            proof {
                lemma_valid_quad_at(me, actor);
            }
            self.ram_mut(me, actor);
            self.actor_commit(me)?;
            self.try_free(me)?;
            Ok(FALSE)
        } else {
            Err(E_BOUNDS)
        }
    }
}

} // verus!

verus! {

/// A step whose success leads to instruction `kip`.
pub open spec fn then_next(s: (Result<(), Error>, CoreView), kip: Any) -> (Result<Any, Error>, CoreView) {
    match s.0 {
        Ok(_) => (Ok(kip), s.1),
        Err(e) => (Err(e), s.1),
    }
}

impl CoreView {
    /// A value with a forwarding cell left by the collector followed.
    pub open spec fn follow_fwd_val(self, val: Any) -> Any {
        if spec_is_ram(val) && self.cell(val).t == GC_FWD_T {
            self.cell(val).z
        } else {
            val
        }
    }

    /// Popping `k` items off the stack.
    pub open spec fn drop_loop(self, k: int) -> (Result<(), Error>, CoreView)
        decreases k,
    {
        if k > 0 {
            let (r, v1) = self.pop_step();
            match r {
                Ok(_) => v1.drop_loop(k - 1),
                Err(e) => (Err(e), v1),
            }
        } else {
            (Ok(()), self)
        }
    }

    /// Performing the instruction at `ip`: its effect on the machine, and the
    /// next instruction pointer.
    pub open spec fn perform_step(self, ip: Any) -> (Result<Any, Error>, CoreView) {
        let instr = self.cell(ip);
        let op = instr.x;
        let imm = instr.y;
        let kip = instr.z;
        let n = fix_val(imm);
        if !(spec_is_ptr(ip) && readable(ip)) {
            (Err(E_NOT_PTR), self)
        } else if instr.t != INSTR_T {
            (Err(E_ASSERT), self)
        } else if op == VM_TYPEQ {
            then_next(and_then(self.pop_step(), |val: Any, v1: CoreView| v1.push_step(bool_val(v1.typeq(imm, val)))), kip)
        } else if op == VM_DICT {
            then_next(self.dict_op_step(imm), kip)
        } else if op == VM_DEQUE {
            then_next(self.deque_op_step(imm), kip)
        } else if op == VM_PAIR || op == VM_PART || op == VM_DUP || op == VM_ROLL || op == VM_DROP
            || op == VM_PICK || op == VM_MSG {
            if !spec_is_fix(imm) {
                (Err(E_NOT_FIX), self)
            } else if op == VM_PAIR {
                then_next(self.stack_pairs_step(n), kip)
            } else if op == VM_PART {
                then_next(self.stack_parts_step(n), kip)
            } else if op == VM_DUP {
                then_next(self.stack_dup_step(n), kip)
            } else if op == VM_ROLL {
                then_next(self.stack_roll_step(n), kip)
            } else if op == VM_DROP {
                if n >= 64 {
                    (Err(E_BOUNDS), self)
                } else {
                    then_next(self.drop_loop(n), kip)
                }
            } else if op == VM_PICK {
                if n > 0 && n >= 64 {
                    (Err(E_BOUNDS), self)
                } else if n > 0 && !self.kp_ok() {
                    (Err(E_NOT_PTR), self)
                } else {
                    then_next(self.push_step(if n > 0 { self.extract(self.sp(), n) } else { UNDEF }), kip)
                }
            } else {
                let ep = self.ep();
                if n >= 64 || n <= -64 {
                    (Err(E_BOUNDS), self)
                } else if !self.kp_ok() || !spec_is_ptr(ep) {
                    (Err(E_NOT_PTR), self)
                } else {
                    then_next(self.push_step(self.extract(self.cell(ep).y, n)), kip)
                }
            }
        } else if op == VM_NTH {
            and_then(self.pop_step(), |lst: Any, v1: CoreView|
                if !spec_is_fix(imm) {
                    (Err(E_NOT_FIX), v1)
                } else if n >= 64 || n <= -64 {
                    (Err(E_BOUNDS), v1)
                } else {
                    then_next(v1.push_step(v1.extract(lst, n)), kip)
                })
        } else if op == VM_PUSH {
            then_next(self.push_step(self.follow_fwd_val(imm)), kip)
        } else if op == VM_DEPTH {
            if !self.kp_ok() {
                (Err(E_NOT_PTR), self)
            } else {
                then_next(self.push_step(spec_fix(self.list_len(self.sp()))), kip)
            }
        } else if op == VM_ALU {
            if imm == ALU_NOT {
                then_next(and_then(self.pop_step(), |v: Any, v1: CoreView| v1.push_step(not_result(v))), kip)
            } else {
                then_next(and_then(self.pop_step(), |vv: Any, v1: CoreView|
                    and_then(v1.pop_step(), |v: Any, v2: CoreView| v2.push_step(alu_result(imm, v, vv)))), kip)
            }
        } else if op == VM_EQ {
            then_next(and_then(self.pop_step(), |vv: Any, v1: CoreView| v1.push_step(bool_val(imm == vv))), kip)
        } else if op == VM_CMP {
            then_next(and_then(self.pop_step(), |vv: Any, v1: CoreView|
                and_then(v1.pop_step(), |v: Any, v2: CoreView| v2.push_step(bool_val(compare_result(imm, v, vv))))), kip)
        } else if op == VM_IF {
            and_then(self.pop_step(), |b: Any, v1: CoreView| (Ok(if spec_falsey(b) { kip } else { imm }), v1))
        } else if op == VM_MY {
            then_next(self.my_op_step(imm), kip)
        } else if op == VM_SEND {
            then_next(self.send_step(imm), kip)
        } else if op == VM_NEW {
            then_next(self.new_beh_step(imm, false), kip)
        } else if op == VM_BEH {
            then_next(self.new_beh_step(imm, true), kip)
        } else if op == VM_END {
            self.end_step(imm)
        } else if op == VM_IS_EQ {
            and_then(self.pop_step(), |vv: Any, v1: CoreView|
                if imm != vv { (Err(E_ASSERT), v1) } else { (Ok(kip), v1) })
        } else if op == VM_IS_NE {
            and_then(self.pop_step(), |vv: Any, v1: CoreView|
                if imm == vv { (Err(E_ASSERT), v1) } else { (Ok(kip), v1) })
        } else {
            (Err(E_BOUNDS), self)
        }
    }
}

impl Core {
    /// Perform the instruction at `ip`, returning the next instruction pointer.
    #[verifier::spinoff_prover]
    #[verifier::rlimit(40)]
    fn perform_op(&mut self, ip: Any) -> (r: Result<Any, Error>)
        requires
            old(self)@.wf(),
        ensures
            final(self)@.wf(),
            r == old(self)@.perform_step(ip).0,
            final(self)@ == old(self)@.perform_step(ip).1,
            r matches Ok(n) ==> valid(n),
    {
        if !(is_ptr(ip) && is_readable(ip)) {
            return Err(E_NOT_PTR);
        }
        let instr = self.mem(ip);
        if instr.t != INSTR_T {
            return Err(E_ASSERT);
        }
        let opr = instr.x;
        let imm = instr.y;
        let kip = instr.z;
        if opr == VM_TYPEQ {
            let val = self.stack_pop()?;
            let r = self.typeq(imm, val);
            self.stack_push(to_bool(r))?;
            Ok(kip)
        } else if opr == VM_DICT {
            self.op_dict(imm)?;
            Ok(kip)
        } else if opr == VM_DEQUE {
            self.op_deque(imm)?;
            Ok(kip)
        } else if opr == VM_PAIR {
            let n = get_fix(imm)?;
            self.stack_pairs(n)?;
            Ok(kip)
        } else if opr == VM_PART {
            let n = get_fix(imm)?;
            self.stack_parts(n)?;
            Ok(kip)
        } else if opr == VM_NTH {
            let lst = self.stack_pop()?;
            let n = get_fix(imm)?;
            if n >= 64 || n <= -64 {
                return Err(E_BOUNDS);
            }
            let r = self.extract_nth(lst, n);
            self.stack_push(r)?;
            Ok(kip)
        } else if opr == VM_PUSH {
            let val = self.follow_fwd(imm);
            self.stack_push(val)?;
            Ok(kip)
        } else if opr == VM_DEPTH {
            let kp = self.kp();
            if is_ram(kp) && is_cap(kp) {
                return Err(E_NOT_PTR);
            }
            let lst = self.sp();
            let n = self.list_len(lst);
            self.stack_push(fix(n))?;
            Ok(kip)
        } else if opr == VM_DROP {
            let n = get_fix(imm)?;
            if n >= 64 {
                return Err(E_BOUNDS);
            }
            let mut k = n;
            while k > 0
                invariant
                    self@.wf(),
                    spec_is_ptr(ip),
                    readable(ip),
                    old(self)@.cell(ip) == instr,
                    instr.t == INSTR_T,
                    instr.x == VM_DROP,
                    old(self)@.perform_step(ip) == then_next(self@.drop_loop(k as int), kip),
                decreases k,
            {
                self.stack_pop()?;
                k -= 1;
            }
            Ok(kip)
        } else if opr == VM_PICK {
            let n = get_fix(imm)?;
            let r = if n > 0 {
                if n >= 64 {
                    return Err(E_BOUNDS);
                }
                let kp = self.kp();
                if is_ram(kp) && is_cap(kp) {
                    return Err(E_NOT_PTR);
                }
                let lst = self.sp();
                self.extract_nth(lst, n)
            } else {
                UNDEF
            };
            self.stack_push(r)?;
            Ok(kip)
        } else if opr == VM_DUP {
            let n = get_fix(imm)?;
            self.stack_dup(n)?;
            Ok(kip)
        } else if opr == VM_ROLL {
            let n = get_fix(imm)?;
            self.stack_roll(n)?;
            Ok(kip)
        } else if opr == VM_ALU {
            let r = if imm == ALU_NOT {
                let v = self.stack_pop()?;
                self.alu_not(v)
            } else {
                let vv = self.stack_pop()?;
                let v = self.stack_pop()?;
                self.alu(imm, v, vv)
            };
            self.stack_push(r)?;
            Ok(kip)
        } else if opr == VM_EQ {
            let vv = self.stack_pop()?;
            self.stack_push(to_bool(imm == vv))?;
            Ok(kip)
        } else if opr == VM_CMP {
            let vv = self.stack_pop()?;
            let v = self.stack_pop()?;
            let b = self.compare(imm, v, vv);
            self.stack_push(to_bool(b))?;
            Ok(kip)
        } else if opr == VM_IF {
            let b = self.stack_pop()?;
            if falsey(b) {
                Ok(kip)
            } else {
                Ok(imm)
            }
        } else if opr == VM_MSG {
            let n = get_fix(imm)?;
            if n >= 64 || n <= -64 {
                return Err(E_BOUNDS);
            }
            let kp = self.kp();
            if is_ram(kp) && is_cap(kp) {
                return Err(E_NOT_PTR);
            }
            let ep = self.ep();
            if !is_ptr(ep) {
                return Err(E_NOT_PTR);
            }
            let msg = self.mem(ep).y;
            let r = self.extract_nth(msg, n);
            self.stack_push(r)?;
            Ok(kip)
        } else if opr == VM_MY {
            self.op_my(imm)?;
            Ok(kip)
        } else if opr == VM_SEND {
            self.op_send(imm)?;
            Ok(kip)
        } else if opr == VM_NEW {
            self.op_new_beh(imm, false)?;
            Ok(kip)
        } else if opr == VM_BEH {
            self.op_new_beh(imm, true)?;
            Ok(kip)
        } else if opr == VM_END {
            self.op_end(imm)
        } else if opr == VM_IS_EQ {
            let vv = self.stack_pop()?;
            if imm != vv {
                return Err(E_ASSERT);
            }
            Ok(kip)
        } else if opr == VM_IS_NE {
            let vv = self.stack_pop()?;
            if imm == vv {
                return Err(E_ASSERT);
            }
            Ok(kip)
        } else {
            Err(E_BOUNDS)
        }
    }

    /// Check for an interrupt (none are raised by the core itself).
    pub fn check_for_interrupt(&mut self) -> (r: Result<bool, Error>)
        requires
            old(self)@.wf(),
        ensures
            final(self)@.wf(),
            r == Ok::<bool, Error>(false),
            final(self)@ == old(self)@,
    {
        Ok(false)
    }
}

} // verus!

verus! {

impl CoreView {
    /// A sponsor's remaining quota in a field (0 if it is not a fixnum).
    pub open spec fn quota_of(self, field: Any) -> int {
        if spec_is_fix(field) {
            fix_val(field)
        } else {
            0
        }
    }
}

impl CoreView {
    /// Executing one instruction of the head continuation (see
    /// `Core::execute_instruction`); `Ok(false)` when there is none.
    pub open spec fn execute_step(self) -> (Result<bool, Error>, CoreView) {
        let kp = self.kp();
        let ep = self.ep();
        let sponsor = self.cell(ep).t;
        let limit = self.quota_of(self.cell(sponsor).y);
        if !spec_is_ram(kp) {
            (Ok(false), self)
        } else if spec_is_cap(kp) || !spec_is_ptr(ep) || !(spec_is_ptr(sponsor) && readable(sponsor)) {
            (Err(E_NOT_PTR), self)
        } else if limit <= 0 {
            (Err(E_CPU_LIM), self)
        } else {
            and_then(self.perform_step(self.ip()), |ip2: Any, v1: CoreView|
                if !writable(v1.kp()) {
                    (Err(E_NOT_RAM), v1)
                } else if !writable(sponsor) {
                    (Err(E_NOT_RAM), v1.set_ip_state(ip2))
                } else {
                    let v2 = v1.set_ip_state(ip2);
                    let v3 = v2.set_cell(sponsor, Quad { y: spec_fix(limit - 1), ..v2.cell(sponsor) });
                    and_then(v3.cont_dequeue_step(), |k: Option<Any>, v4: CoreView|
                        if k != Some(kp) {
                            (Err(E_ASSERT), v4)
                        } else if v4.typeq(INSTR_T, ip2) {
                            and_then(v4.cont_enqueue_step(kp), |u: (), v5: CoreView| (Ok(true), v5))
                        } else {
                            and_then(v4.try_free_step(ep), |u: (), v5: CoreView|
                                and_then(v5.try_free_step(kp), |u2: (), v6: CoreView|
                                    and_then(v6.gc_step(), |u3: (), v7: CoreView| (Ok(true), v7))))
                        })
                })
        }
    }

    /// Dispatching the event at the front of the event queue (see
    /// `Core::dispatch_event`).
    pub open spec fn dispatch_step(self) -> (Result<Dispatch, Error>, CoreView) {
        let ep = self.e_first();
        let event = self.cell(ep);
        let target = event.x;
        let sponsor = event.t;
        let limit = self.quota_of(self.cell(sponsor).x);
        let a_ptr = clear_opq(target);
        let actor = self.cell(a_ptr);
        let beh = actor.x;
        if !spec_is_ram(ep) {
            (Ok(Dispatch::Idle), self)
        } else if !writable(ep) {
            (Err(E_NOT_RAM), self)
        } else if !(spec_is_ptr(sponsor) && readable(sponsor)) {
            (Err(E_NOT_PTR), self)
        } else if limit <= 0 {
            (Err(E_MSG_LIM), self)
        } else if spec_is_fix(target) || self.cell(target).t != ACTOR_T {
            (Err(E_ASSERT), self)
        } else if spec_is_fix(beh) {
            let index = fix_val(beh);
            if index < 0 || index >= DEVICE_MAX {
                (Err(E_BOUNDS), self)
            } else {
                and_then(self.event_dequeue_step(), |k: Option<Any>, v1: CoreView|
                    if k != Some(ep) {
                        (Err(E_ASSERT), v1)
                    } else {
                        (Ok(Dispatch::Device(index as usize, ep)), v1)
                    })
            }
        } else if actor.z == UNDEF {
            if !valid_quad(actor) {
                (Err(E_ASSERT), self)
            } else {
                and_then(self.reserve_step(actor), |rollback: Any, v1: CoreView|
                    and_then(v1.reserve_step(mk(beh, actor.y, ep, NIL)), |kp: Any, v2: CoreView|
                        if !writable(a_ptr) {
                            (Err(E_NOT_RAM), v2)
                        } else {
                            and_then(v2.set_link(a_ptr, NIL).cont_enqueue_step(kp), |u: (), v3: CoreView|
                                and_then(v3.event_dequeue_step(), |k: Option<Any>, v4: CoreView|
                                    if k != Some(ep) {
                                        (Err(E_ASSERT), v4)
                                    } else {
                                        let v5 = v4.set_link(ep, rollback);
                                        if !writable(sponsor) {
                                            (Err(E_NOT_RAM), v5)
                                        } else {
                                            (
                                                Ok(Dispatch::Started),
                                                v5.set_cell(sponsor, Quad { x: spec_fix(limit - 1), ..v5.cell(sponsor) }),
                                            )
                                        }
                                    }))
                        }))
            }
        } else {
            and_then(self.event_dequeue_step(), |k: Option<Any>, v1: CoreView|
                if k != Some(ep) {
                    (Err(E_ASSERT), v1)
                } else {
                    and_then(v1.event_enqueue_step(ep), |u: (), v2: CoreView| (Ok(Dispatch::Idle), v2))
                })
        }
    }

    /// Running the machine for at most `fuel` rounds (see `Core::run_loop`).
    pub open spec fn run_step(self, fuel: nat) -> (Run, CoreView)
        decreases fuel,
    {
        if fuel == 0 {
            (Run::Done(false), self)
        } else {
            let (r1, v1) = self.execute_step();
            match r1 {
                Err(_) => (Run::Done(false), v1),
                Ok(more) => if !more && !spec_is_ram(v1.e_first()) {
                    (Run::Done(true), v1)
                } else {
                    let (r2, v2) = v1.dispatch_step();
                    match r2 {
                        Ok(Dispatch::Device(id, ep)) => (Run::Device(id, ep), v2),
                        Ok(_) => v2.run_step((fuel - 1) as nat),
                        Err(_) => (Run::Done(false), v2),
                    }
                },
            }
        }
    }
}

/// A run that ends for want of work leaves both queues empty; a run that
/// hands out an event names an existing device.
#[verifier::spinoff_prover]
#[verifier::rlimit(40)]
pub proof fn lemma_run_step_outcome(v: CoreView, fuel: nat)
    ensures
        v.run_step(fuel).0 == Run::Done(true) ==> !spec_is_ram(v.run_step(fuel).1.k_first())
            && !spec_is_ram(v.run_step(fuel).1.e_first()),
        v.run_step(fuel).0 matches Run::Device(id, _) ==> id < DEVICE_MAX,
    decreases fuel,
{
    if fuel > 0 {
        let (r1, v1) = v.execute_step();
        if let Ok(more) = r1 {
            if more || spec_is_ram(v1.e_first()) {
                let (r2, v2) = v1.dispatch_step();
                if let Ok(d) = r2 {
                    if !(d is Device) {
                        lemma_run_step_outcome(v2, (fuel - 1) as nat);
                    }
                }
            }
        }
    }
}

impl Core {
    /// Execute one instruction of the continuation at the front of the
    /// continuation queue, charging its event's sponsor one instruction.
    /// A continuation that goes on is moved to the back of the queue; one
    /// that ends is freed with its event, and garbage is collected.
    /// Returns `Ok(false)` when there is no continuation.
    #[verifier::spinoff_prover]
    #[verifier::rlimit(40)]
    pub fn execute_instruction(&mut self) -> (r: Result<bool, Error>)
        requires
            old(self)@.wf(),
        ensures
            final(self)@.wf(),
            r == old(self)@.execute_step().0,
            final(self)@ == old(self)@.execute_step().1,
    {
        let kp = self.kp();
        if !is_ram(kp) {
            return Ok(false);
        }
        if is_cap(kp) {
            return Err(E_NOT_PTR);
        }
        let ep = self.ep();
        if !is_ptr(ep) {
            return Err(E_NOT_PTR);
        }
        let sponsor = self.event_sponsor(ep);
        if !(is_ptr(sponsor) && is_readable(sponsor)) {
            return Err(E_NOT_PTR);
        }
        let limit = match fix_num(self.sponsor_instrs(sponsor)) {
            Some(n) => n,
            None => 0,
        };
        if limit <= 0 {
            return Err(E_CPU_LIM);
        }
        let ip = self.ip();
        let ip_ = self.perform_op(ip)?;
        if !is_writable(self.kp()) {
            return Err(E_NOT_RAM);
        }
        self.set_ip(ip_);
        if !is_writable(sponsor) {
            return Err(E_NOT_RAM);
        }
        self.set_sponsor_instrs(sponsor, fix(limit - 1));
        let kp_ = self.cont_dequeue()?;
        match kp_ {
            Some(k) => {
                if k != kp {
                    return Err(E_ASSERT);
                }
            },
            None => {
                return Err(E_ASSERT);
            },
        }
        if self.typeq(INSTR_T, ip_) {
            self.cont_enqueue(kp)?;
        } else {
            self.try_free(ep)?;
            self.try_free(kp)?;
            self.gc_stop_the_world()?;
        }
        Ok(true)
    }

    /// Take the event at the front of the event queue and dispatch it,
    /// charging its sponsor one event: to a device (handed out), to an idle
    /// actor (a continuation runs the actor's behavior, with a snapshot of
    /// the actor kept for rollback), or back to the end of the queue when the
    /// target actor is busy.
    #[verifier::spinoff_prover]
    #[verifier::rlimit(40)]
    pub fn dispatch_event(&mut self) -> (r: Result<Dispatch, Error>)
        requires
            old(self)@.wf(),
        ensures
            final(self)@.wf(),
            r == old(self)@.dispatch_step().0,
            final(self)@ == old(self)@.dispatch_step().1,
            r matches Ok(Dispatch::Device(id, _)) ==> id < DEVICE_MAX,
    {
        if !self.event_pending() {
            return Ok(Dispatch::Idle);
        }
        let ep = self.e_first();
        if !is_writable(ep) {
            return Err(E_NOT_RAM);
        }
        let event = self.mem(ep);
        let target = event.x;
        let sponsor = self.event_sponsor(ep);
        if !(is_ptr(sponsor) && is_readable(sponsor)) {
            return Err(E_NOT_PTR);
        }
        let limit = match fix_num(self.sponsor_events(sponsor)) {
            Some(n) => n,
            None => 0,
        };
        if limit <= 0 {
            return Err(E_MSG_LIM);
        }
        if is_fix(target) {
            return Err(E_ASSERT);
        }
        proof {
            crate::value::lemma_raw_edits(target);
            crate::value::lemma_opq_fields(target);
        }
        if self.mem(target & !crate::value::OPQ_RAW).t != ACTOR_T {
            return Err(E_ASSERT);
        }
        let a_ptr = self.cap_to_ptr(target);
        let a_quad = self.mem(a_ptr);
        let beh = a_quad.x;
        let state = a_quad.y;
        let events = a_quad.z;
        if let Some(index) = fix_num(beh) {
            if index < 0 || index >= DEVICE_MAX as isize {
                return Err(E_BOUNDS);
            }
            let ep_ = self.event_dequeue()?;
            if ep_ != Some(ep) {
                return Err(E_ASSERT);
            }
            Ok(Dispatch::Device(index as usize, ep))
        } else if events == UNDEF {
            if !crate::quad::is_valid_quad(a_quad) {
                return Err(E_ASSERT);
            }
            let rollback = self.reserve(&a_quad)?;
            let kp = self.new_cont(beh, state, ep)?;
            if !is_writable(a_ptr) {
                return Err(E_NOT_RAM);
            }
            self.set_link(a_ptr, NIL);
            self.cont_enqueue(kp)?;
            let ep_ = self.event_dequeue()?;
            if ep_ != Some(ep) {
                return Err(E_ASSERT);
            }
            self.set_link(ep, rollback);
            if !is_writable(sponsor) {
                return Err(E_NOT_RAM);
            }
            self.set_sponsor_events(sponsor, fix(limit - 1));
            Ok(Dispatch::Started)
        } else {
            let ep_ = self.event_dequeue()?;
            if ep_ != Some(ep) {
                return Err(E_ASSERT);
            }
            self.event_enqueue(ep)?;
            Ok(Dispatch::Idle)
        }
    }

    /// Run the machine: execute instructions and dispatch events until there
    /// is no more work (`Done(true)`), an error stops the machine
    /// (`Done(false)`), or an event for a device is taken off the queue
    /// (`Device`). After a device has handled its event the loop may be
    /// resumed. The loop gives up (`Done(false)`) after 2^64 - 1 rounds.
    #[verifier::spinoff_prover]
    #[verifier::rlimit(40)]
    pub fn run_loop(&mut self) -> (r: Run)
        requires
            old(self)@.wf(),
        ensures
            final(self)@.wf(),
            r == old(self)@.run_step(0xFFFF_FFFF_FFFF_FFFF).0,
            final(self)@ == old(self)@.run_step(0xFFFF_FFFF_FFFF_FFFF).1,
            r == Run::Done(true) ==> !spec_is_ram(final(self)@.k_first()) && !spec_is_ram(
                final(self)@.e_first(),
            ),
            r matches Run::Device(id, _) ==> id < DEVICE_MAX,
    {
        proof {
            lemma_run_step_outcome(self@, 0xFFFF_FFFF_FFFF_FFFF);
        }
        let mut fuel: u64 = 0xFFFF_FFFF_FFFF_FFFF;
        while fuel > 0
            invariant
                self@.wf(),
                old(self)@.run_step(0xFFFF_FFFF_FFFF_FFFF) == self@.run_step(fuel as nat),
            decreases fuel,
        {
            fuel -= 1;
            match self.execute_instruction() {
                Ok(more) => {
                    if !more && !self.event_pending() {
                        return Run::Done(true);
                    }
                },
                Err(_error) => {
                    return Run::Done(false);
                },
            }
            if let Err(_error) = self.check_for_interrupt() {
                return Run::Done(false);
            }
            match self.dispatch_event() {
                Ok(Dispatch::Device(id, ep)) => {
                    return Run::Device(id, ep);
                },
                Ok(_) => {},
                Err(_error) => {
                    return Run::Done(false);
                },
            }
        }
        Run::Done(false)
    }
}

} // verus!
