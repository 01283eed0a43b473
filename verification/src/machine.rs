//! The event and continuation queues, the continuation's stack, and actor
//! transactions.
//!
//! Where a corrupted machine state would make an operation fail (a reference
//! of the wrong kind where the machine expects a pointer), the operation
//! returns an error; the contracts say when.
use vstd::prelude::*;
use crate::value::{
    Any, Error, spec_is_fix, spec_is_cap, spec_is_ptr, spec_is_ram, spec_ofs, fix_val, spec_fix,
    is_ram, is_cap, is_ptr, UNDEF, NIL, PAIR_T, ACTOR_T, E_NOT_RAM, E_NOT_PTR, E_ASSERT,
};
use crate::quad::{Quad, mk, valid, valid_quad};
use crate::value::{FREE_T, E_BOUNDS, clear_opq, set_opq};
use crate::lists::WALK_MAX;
use crate::cpu::{Core, CoreView, valid_cell, valid_top, writable, readable, is_writable, is_readable};

verus! {

/// A step followed by another that takes the first one's result and the
/// contents it left; an error of the first step ends the sequence.
pub open spec fn and_then<A, B>(
    s: (Result<A, Error>, CoreView),
    f: spec_fn(A, CoreView) -> (Result<B, Error>, CoreView),
) -> (Result<B, Error>, CoreView) {
    match s.0 {
        Ok(a) => f(a, s.1),
        Err(e) => (Err(e), s.1),
    }
}

impl CoreView {
    /// The head continuation, if any, is a pointer (not a capability).
    pub open spec fn kp_ok(self) -> bool {
        !(spec_is_ram(self.kp()) && spec_is_cap(self.kp()))
    }

    /// The contents after replacing the current continuation's stack pointer.
    pub open spec fn set_sp_state(self, ptr: Any) -> CoreView {
        self.set_cell(self.kp(), Quad { x: ptr, ..self.cell(self.kp()) })
    }

    /// The contents after replacing the current continuation's instruction pointer.
    pub open spec fn set_ip_state(self, ptr: Any) -> CoreView {
        self.set_cell(self.kp(), Quad { t: ptr, ..self.cell(self.kp()) })
    }

    /// The contents after setting the `z` (link) field of a cell.
    pub open spec fn set_link(self, p: Any, next: Any) -> CoreView {
        self.set_cell(p, Quad { z: next, ..self.cell(p) })
    }

    /// The contents after pushing a value onto the current stack, and the outcome.
    pub open spec fn push_step(self, val: Any) -> (Result<(), Error>, CoreView) {
        if !self.kp_ok() {
            (Err(E_NOT_PTR), self)
        } else {
            let (r1, v1) = self.cons_step(val, self.sp());
            match r1 {
                Err(e) => (Err(e), v1),
                Ok(p) => if writable(v1.kp()) {
                    (Ok(()), v1.set_sp_state(p))
                } else {
                    (Err(E_NOT_RAM), v1)
                },
            }
        }
    }

    /// The value popped off the current stack (`UNDEF` when it is empty) and
    /// the contents after the pop.
    pub open spec fn pop_step(self) -> (Result<Any, Error>, CoreView) {
        if !self.kp_ok() {
            (Err(E_NOT_PTR), self)
        } else if self.typeq(PAIR_T, self.sp()) {
            (Ok(self.car(self.sp())), self.set_sp_state(self.cdr(self.sp())))
        } else {
            (Ok(UNDEF), self)
        }
    }

    /// Adding event `ep` to the back of the event queue (`E_NOT_RAM` when the
    /// queue's last event cannot be linked to).
    pub open spec fn event_enqueue_step(self, ep: Any) -> (Result<(), Error>, CoreView) {
        let v1 = self.set_link(ep, NIL);
        if spec_is_ram(v1.e_first()) && !writable(v1.e_last()) {
            (Err(E_NOT_RAM), v1)
        } else {
            (Ok(()), self.event_enqueue_state(ep))
        }
    }

    /// Adding continuation `kp` to the back of the continuation queue.
    pub open spec fn cont_enqueue_step(self, kp: Any) -> (Result<(), Error>, CoreView) {
        let v1 = self.set_link(kp, NIL);
        if spec_is_ram(v1.k_first()) && !writable(v1.k_last()) {
            (Err(E_NOT_RAM), v1)
        } else {
            (Ok(()), self.cont_enqueue_state(kp))
        }
    }

    /// Taking the event at the front of the event queue off it (`None` when
    /// the queue is empty).
    pub open spec fn event_dequeue_step(self) -> (Result<Option<Any>, Error>, CoreView) {
        let ep = self.e_first();
        if !spec_is_ram(ep) {
            (Ok(None), self)
        } else if !writable(ep) {
            (Err(E_NOT_RAM), self)
        } else {
            (Ok(Some(ep)), self.event_dequeue_state())
        }
    }

    /// Taking the continuation at the front of the continuation queue off it
    /// (`None` when the queue is empty).
    pub open spec fn cont_dequeue_step(self) -> (Result<Option<Any>, Error>, CoreView) {
        let kp = self.k_first();
        if !spec_is_ram(kp) {
            (Ok(None), self)
        } else if !writable(kp) {
            (Err(E_NOT_RAM), self)
        } else {
            (Ok(Some(kp)), self.cont_dequeue_state())
        }
    }

    /// The contents after adding event `ep` to the back of the event queue.
    pub open spec fn event_enqueue_state(self, ep: Any) -> CoreView {
        let v1 = self.set_link(ep, NIL);
        let v2 = if !spec_is_ram(v1.e_first()) {
            v1.set_ddeque(Quad { t: ep, ..v1.dq_cell() })
        } else {
            v1.set_link(v1.e_last(), ep)
        };
        v2.set_ddeque(Quad { x: ep, ..v2.dq_cell() })
    }

    /// The contents after adding continuation `kp` to the back of the continuation queue.
    pub open spec fn cont_enqueue_state(self, kp: Any) -> CoreView {
        let v1 = self.set_link(kp, NIL);
        let v2 = if !spec_is_ram(v1.k_first()) {
            v1.set_ddeque(Quad { y: kp, ..v1.dq_cell() })
        } else {
            v1.set_link(v1.k_last(), kp)
        };
        v2.set_ddeque(Quad { z: kp, ..v2.dq_cell() })
    }

    /// The contents after removing the event at the front of the event queue.
    pub open spec fn event_dequeue_state(self) -> CoreView {
        let next = self.cell(self.e_first()).z;
        let v1 = self.set_ddeque(Quad { t: next, ..self.dq_cell() });
        if !spec_is_ram(next) {
            v1.set_ddeque(Quad { x: NIL, ..v1.dq_cell() })
        } else {
            v1
        }
    }

    /// The contents after removing the continuation at the front of the queue.
    pub open spec fn cont_dequeue_state(self) -> CoreView {
        let next = self.cell(self.k_first()).z;
        let v1 = self.set_ddeque(Quad { y: next, ..self.dq_cell() });
        if !spec_is_ram(next) {
            v1.set_ddeque(Quad { z: NIL, ..v1.dq_cell() })
        } else {
            v1
        }
    }
}

impl Core {
    /// Set the `z` (link) field of a RAM cell.
    pub(crate) fn set_link(&mut self, p: Any, next: Any)
        requires
            old(self)@.wf(),
            writable(p),
            valid(next),
        ensures
            final(self)@.wf(),
            final(self)@ == old(self)@.set_link(p, next),
    {
        let mut q = self.ram(p);
        q.z = next;
        self.ram_mut(p, q);
    }

    /// Set the current continuation's instruction pointer.
    pub(crate) fn set_ip(&mut self, ptr: Any)
        requires
            old(self)@.wf(),
            writable(old(self)@.kp()),
            valid(ptr),
        ensures
            final(self)@.wf(),
            final(self)@ == old(self)@.set_ip_state(ptr),
    {
        let kp = self.kp();
        let mut q = self.ram(kp);
        q.t = ptr;
        self.ram_mut(kp, q);
    }

    /// Set the current continuation's stack pointer.
    pub(crate) fn set_sp(&mut self, ptr: Any)
        requires
            old(self)@.wf(),
            writable(old(self)@.kp()),
            valid(ptr),
        ensures
            final(self)@.wf(),
            final(self)@ == old(self)@.set_sp_state(ptr),
    {
        let kp = self.kp();
        let mut q = self.ram(kp);
        q.x = ptr;
        self.ram_mut(kp, q);
    }

    /// Is there an event waiting in the event queue?
    pub fn event_pending(&self) -> (r: bool)
        requires
            self@.wf(),
        ensures
            r == spec_is_ram(self@.e_first()),
    {
        is_ram(self.e_first())
    }

    /// Pop the top of the current stack (`UNDEF` when the stack is empty).
    pub(crate) fn stack_pop(&mut self) -> (r: Result<Any, Error>)
        requires
            old(self)@.wf(),
        ensures
            final(self)@.wf(),
            r matches Ok(v) ==> valid(v),
            r == old(self)@.pop_step().0,
            final(self)@ == old(self)@.pop_step().1,
    {
        let kp = self.kp();
        if is_ram(kp) && is_cap(kp) {
            return Err(E_NOT_PTR);
        }
        let sp = self.sp();
        if self.typeq(PAIR_T, sp) {
            let item = self.car(sp);
            let rest = self.cdr(sp);
            self.set_sp(rest);
            Ok(item)
        } else {
            Ok(UNDEF)
        }
    }

    /// Push a value onto the current stack.
    pub(crate) fn stack_push(&mut self, val: Any) -> (r: Result<(), Error>)
        requires
            old(self)@.wf(),
            valid(val),
        ensures
            final(self)@.wf(),
            r == old(self)@.push_step(val).0,
            final(self)@ == old(self)@.push_step(val).1,
    {
        let kp = self.kp();
        if is_ram(kp) && is_cap(kp) {
            return Err(E_NOT_PTR);
        }
        let sp = self.sp();
        let sp = self.cons(val, sp)?;
        if !is_writable(self.kp()) {
            return Err(E_NOT_RAM);
        }
        self.set_sp(sp);
        Ok(())
    }

    /// Add an event to the back of the event queue.
    pub(crate) fn event_enqueue(&mut self, ep: Any) -> (r: Result<(), Error>)
        requires
            old(self)@.wf(),
            writable(ep),
        ensures
            final(self)@.wf(),
            r == old(self)@.event_enqueue_step(ep).0,
            final(self)@ == old(self)@.event_enqueue_step(ep).1,
    {
        self.set_link(ep, NIL);
        if !is_ram(self.e_first()) {
            self.set_e_first(ep);
        } else {
            let last = self.e_last();
            if !is_writable(last) {
                return Err(E_NOT_RAM);
            }
            self.set_link(last, ep);
        }
        self.set_e_last(ep);
        Ok(())
    }

    /// Remove the event at the front of the event queue.
    pub(crate) fn event_dequeue(&mut self) -> (r: Result<Option<Any>, Error>)
        requires
            old(self)@.wf(),
        ensures
            final(self)@.wf(),
            r == old(self)@.event_dequeue_step().0,
            final(self)@ == old(self)@.event_dequeue_step().1,
    {
        let ep = self.e_first();
        if is_ram(ep) {
            if !is_writable(ep) {
                return Err(E_NOT_RAM);
            }
            let next = self.ram(ep).z;
            self.set_e_first(next);
            if !is_ram(next) {
                self.set_e_last(NIL);
            }
            Ok(Some(ep))
        } else {
            Ok(None)
        }
    }

    /// Add an event to the front of the event queue (e.g. for interrupts).
    /// The event cell is reserved without charging a sponsor.
    pub fn event_inject(&mut self, sponsor: Any, target: Any, msg: Any) -> (r: Result<(), Error>)
        requires
            old(self)@.wf(),
            valid(sponsor),
            valid(target),
            valid(msg),
        ensures
            final(self)@.wf(),
            r is Ok <==> old(self)@.reserve_ok(),
            r matches Err(e) ==> e == old(self)@.reserve_err() && final(self)@ == old(self)@,
            r is Ok ==> ({
                let ep = old(self)@.reserve_ptr();
                let v1 = old(self)@.reserve_state(mk(sponsor, target, msg, NIL));
                let first = v1.e_first();
                let v2 = v1.set_link(ep, first);
                let v3 = if !spec_is_ram(first) {
                    v2.set_ddeque(Quad { x: ep, ..v2.dq_cell() })
                } else {
                    v2
                };
                final(self)@ == v3.set_ddeque(Quad { t: ep, ..v3.dq_cell() })
            }),
    {
        let event = Quad::new_event(sponsor, target, msg);
        let ep = self.reserve(&event)?;
        let first = self.e_first();
        proof {
            crate::cpu::lemma_valid_top_of_valid(first);
        }
        self.set_link(ep, first);
        if !is_ram(first) {
            self.set_e_last(ep);
        }
        self.set_e_first(ep);
        Ok(())
    }

    /// Add a continuation to the back of the continuation queue.
    pub(crate) fn cont_enqueue(&mut self, kp: Any) -> (r: Result<(), Error>)
        requires
            old(self)@.wf(),
            writable(kp),
        ensures
            final(self)@.wf(),
            r == old(self)@.cont_enqueue_step(kp).0,
            final(self)@ == old(self)@.cont_enqueue_step(kp).1,
    {
        self.set_link(kp, NIL);
        if !is_ram(self.k_first()) {
            self.set_k_first(kp);
        } else {
            let last = self.k_last();
            if !is_writable(last) {
                return Err(E_NOT_RAM);
            }
            self.set_link(last, kp);
        }
        self.set_k_last(kp);
        Ok(())
    }

    /// Remove the continuation at the front of the continuation queue.
    pub(crate) fn cont_dequeue(&mut self) -> (r: Result<Option<Any>, Error>)
        requires
            old(self)@.wf(),
        ensures
            final(self)@.wf(),
            r == old(self)@.cont_dequeue_step().0,
            final(self)@ == old(self)@.cont_dequeue_step().1,
    {
        let kp = self.k_first();
        if is_ram(kp) {
            if !is_writable(kp) {
                return Err(E_NOT_RAM);
            }
            let next = self.ram(kp).z;
            self.set_k_first(next);
            if !is_ram(next) {
                self.set_k_last(NIL);
            }
            Ok(Some(kp))
        } else {
            Ok(None)
        }
    }
}

} // verus!

verus! {

impl CoreView {
    /// The actor the current event is addressed to, as a pointer (`UNDEF`
    /// when there is no current event).
    pub open spec fn self_ptr_result(self) -> Result<Any, Error> {
        let ep = self.ep();
        let target = self.cell(ep).x;
        if !self.kp_ok() {
            Err(E_NOT_PTR)
        } else if !spec_is_ram(ep) {
            Ok(UNDEF)
        } else if !writable(ep) {
            Err(E_NOT_PTR)
        } else if spec_is_fix(target) {
            Err(E_ASSERT)
        } else if self.cell(target).t != ACTOR_T {
            Err(E_ASSERT)
        } else {
            Ok(clear_opq(target))
        }
    }

    /// Setting the `cdr` of a heap pair (`E_ASSERT` when `pair` is not one).
    pub open spec fn try_set_cdr_step(self, pair: Any, val: Any) -> (Result<(), Error>, CoreView) {
        if self.in_heap(pair) && writable(pair) && self.cell(pair).t == PAIR_T {
            (Ok(()), self.set_cell(pair, Quad { y: val, ..self.cell(pair) }))
        } else {
            (Err(E_ASSERT), self)
        }
    }

    /// Can `ptr` be freed: a heap pointer that spares the memory
    /// descriptors, not already free, with a fixnum free count that can grow?
    pub open spec fn can_free(self, ptr: Any) -> bool {
        &&& self.in_heap(ptr)
        &&& !spec_is_cap(ptr)
        &&& self.spare_cell(ptr)
        &&& !self.typeq(FREE_T, ptr)
        &&& spec_is_fix(self.ram_free())
        &&& fix_val(self.ram_free()) + 1 < 0x4000_0000
    }

    /// Freeing a cell (`E_ASSERT` when it cannot be freed).
    pub open spec fn try_free_step(self, ptr: Any) -> (Result<(), Error>, CoreView) {
        if self.can_free(ptr) {
            (Ok(()), self.free_state(ptr))
        } else {
            (Err(E_ASSERT), self)
        }
    }

    /// Allocating an event carrying `msg` to actor `target`, sponsored by the
    /// current event's sponsor.
    pub open spec fn new_event_step(self, target: Any, msg: Any) -> (Result<Any, Error>, CoreView) {
        let sponsor = self.cell(self.ep()).t;
        if !self.typeq(ACTOR_T, target) {
            (Err(E_ASSERT), self)
        } else if !self.kp_ok() || !spec_is_ptr(self.ep()) || !readable(sponsor) {
            (Err(E_NOT_PTR), self)
        } else {
            (
                self.alloc_outcome(mk(sponsor, target, msg, NIL)),
                self.alloc_state(mk(sponsor, target, msg, NIL)),
            )
        }
    }

    /// Allocating an actor with behavior `beh` and state `state`; the result
    /// is its capability.
    pub open spec fn new_actor_step(self, beh: Any, state: Any) -> (Result<Any, Error>, CoreView) {
        let init = mk(ACTOR_T, beh, state, UNDEF);
        and_then(
            (self.alloc_outcome(init), self.alloc_state(init)),
            |ptr: Any, v1: CoreView|
                if v1.cell(ptr).t != ACTOR_T {
                    (Err(E_ASSERT), v1)
                } else {
                    (Ok(set_opq(ptr)), v1)
                },
        )
    }

    /// Pushing the elements of a list (at most `fuel` of them), last element
    /// first, so that the first element ends on top.
    pub open spec fn push_list_step(self, ptr: Any, fuel: nat) -> (Result<(), Error>, CoreView)
        decreases fuel,
    {
        if fuel > 0 && self.typeq(PAIR_T, ptr) {
            let (r, v1) = self.push_list_step(self.cdr(ptr), (fuel - 1) as nat);
            match r {
                Ok(_) => v1.push_step(v1.car(ptr)),
                Err(e) => (Err(e), v1),
            }
        } else {
            (Ok(()), self)
        }
    }

    /// Detaching the top `n` items of the stack as a list: the stack's own
    /// pairs, cut after the `n`-th (`NIL` when `n` is not positive).
    pub open spec fn pop_counted_step(self, n: int) -> (Result<Any, Error>, CoreView) {
        let sp = self.sp();
        let (last, rest) = self.split_from(UNDEF, sp, n + 1);
        if n <= 0 {
            (Ok(NIL), self)
        } else if !self.kp_ok() {
            (Err(E_NOT_PTR), self)
        } else {
            and_then(
                if self.typeq(PAIR_T, last) {
                    self.try_set_cdr_step(last, NIL)
                } else {
                    (Ok(()), self)
                },
                |u: (), v1: CoreView|
                    if !writable(v1.kp()) {
                        (Err(E_NOT_RAM), v1)
                    } else {
                        (Ok(sp), v1.set_sp_state(rest))
                    },
            )
        }
    }
}

impl Core {
    /// Set the `cdr` of a heap pair.
    pub(crate) fn set_cdr(&mut self, pair: Any, val: Any)
        requires
            old(self)@.wf(),
            old(self)@.in_heap(pair),
            writable(pair),
            old(self)@.cell(pair).t == PAIR_T,
            valid(val),
        ensures
            final(self)@.wf(),
            final(self)@ == old(self)@.set_cell(pair, Quad { y: val, ..old(self)@.cell(pair) }),
    {
        let mut q = self.ram(pair);
        q.y = val;
        self.ram_mut(pair, q);
    }

    /// Set the `cdr` of a heap pair, or fail with `E_ASSERT` when `pair` is
    /// not a pair in the heap.
    pub(crate) fn try_set_cdr(&mut self, pair: Any, val: Any) -> (r: Result<(), Error>)
        requires
            old(self)@.wf(),
            valid(pair),
            valid(val),
        ensures
            final(self)@.wf(),
            r == old(self)@.try_set_cdr_step(pair, val).0,
            final(self)@ == old(self)@.try_set_cdr_step(pair, val).1,
    {
        if self.in_heap(pair) && is_writable(pair) && self.ram(pair).t == PAIR_T {
            self.set_cdr(pair, val);
            Ok(())
        } else {
            Err(E_ASSERT)
        }
    }

    /// Free a heap cell, or fail with `E_ASSERT` when it cannot be freed
    /// (not in the heap, already free, or the free count is not a fixnum).
    pub(crate) fn try_free(&mut self, ptr: Any) -> (r: Result<(), Error>)
        requires
            old(self)@.wf(),
            valid(ptr),
        ensures
            final(self)@.wf(),
            r == old(self)@.try_free_step(ptr).0,
            final(self)@ == old(self)@.try_free_step(ptr).1,
    {
        if !(self.in_heap(ptr) && !is_cap(ptr)) {
            return Err(E_ASSERT);
        }
        proof {
            crate::value::lemma_raw_bits(ptr);
        }
        let spare = crate::value::ofs(ptr) != 0 || ((ptr & crate::value::BNK_RAW) != 0
            && self.gc_phase() == crate::value::BNK_0);
        if !spare {
            return Err(E_ASSERT);
        }
        if self.typeq(crate::value::FREE_T, ptr) {
            return Err(E_ASSERT);
        }
        match crate::value::fix_num(self.ram_free()) {
            Some(n) => {
                if n + 1 >= 0x4000_0000 {
                    return Err(E_ASSERT);
                }
            },
            None => {
                return Err(E_ASSERT);
            },
        }
        self.free(ptr);
        Ok(())
    }

    /// The actor the current event is addressed to, as a pointer, or `UNDEF`
    /// when there is no current event.
    pub(crate) fn self_ptr(&self) -> (r: Result<Any, Error>)
        requires
            self@.wf(),
        ensures
            r == self@.self_ptr_result(),
            r matches Ok(p) ==> valid(p) && (p == UNDEF || (spec_is_ptr(p) && self@.cell(p).t
                == ACTOR_T)),
    {
        let kp = self.kp();
        if is_ram(kp) && is_cap(kp) {
            return Err(E_NOT_PTR);
        }
        let ep = self.ep();
        if !is_ram(ep) {
            return Ok(UNDEF);
        }
        if !is_writable(ep) {
            return Err(E_NOT_PTR);
        }
        let target = self.ram(ep).x;
        if crate::value::is_fix(target) {
            return Err(E_ASSERT);
        }
        proof {
            crate::value::lemma_raw_edits(target);
            crate::value::lemma_opq_fields(target);
        }
        if self.mem(target & !crate::value::OPQ_RAW).t != ACTOR_T {
            return Err(E_ASSERT);
        }
        Ok(self.cap_to_ptr(target))
    }
}

} // verus!

verus! {

impl CoreView {
    /// The loop of `stack_pairs`: `k - 1` times, pop an item and link a new
    /// pair holding it after pair `p`; the result is the last pair.
    pub open spec fn pairs_loop(self, p: Any, k: int) -> (Result<Any, Error>, CoreView)
        decreases k,
    {
        if k > 1 {
            let (r1, v1) = self.pop_step();
            match r1 {
                Err(e) => (Err(e), v1),
                Ok(h) => {
                    let (r2, v2) = v1.cons_step(h, NIL);
                    match r2 {
                        Err(e) => (Err(e), v2),
                        Ok(q) => {
                            let (r3, v3) = v2.try_set_cdr_step(p, q);
                            match r3 {
                                Err(e) => (Err(e), v3),
                                Ok(_) => v3.pairs_loop(q, k - 1),
                            }
                        },
                    }
                },
            }
        } else {
            (Ok(p), self)
        }
    }

    /// The end of `stack_pairs`: pop the item that ends the list, link it
    /// after the last pair, and push the list.
    pub open spec fn pairs_rest(self, p: Any, lst: Any) -> (Result<(), Error>, CoreView) {
        and_then(self.pop_step(), |t: Any, v1: CoreView|
            and_then(v1.try_set_cdr_step(p, t), |u: (), v2: CoreView| v2.push_step(lst)))
    }

    pub open spec fn pairs_finish(self, p: Any, k: int, lst: Any) -> (Result<(), Error>, CoreView) {
        let (r, v1) = self.pairs_loop(p, k);
        match r {
            Ok(last) => v1.pairs_rest(last, lst),
            Err(e) => (Err(e), v1),
        }
    }

    /// Replacing the top `n + 1` stack items with a list of the top `n`
    /// items ending in the next one.
    pub open spec fn stack_pairs_step(self, n: int) -> (Result<(), Error>, CoreView) {
        if n >= 64 {
            (Err(E_BOUNDS), self)
        } else if n <= 0 {
            (Ok(()), self)
        } else {
            and_then(self.pop_step(), |h: Any, v1: CoreView|
                and_then(v1.cons_step(h, NIL), |lst: Any, v2: CoreView| v2.pairs_finish(lst, n, lst)))
        }
    }

    /// The loop of `stack_parts`: `k - 1` times, step `s` to its rest and link
    /// a new pair holding its first element after pair `p`; the result is the
    /// last position in the list and the last pair.
    pub open spec fn parts_loop(self, s: Any, p: Any, k: int) -> (Result<(Any, Any), Error>, CoreView)
        decreases k,
    {
        if k > 1 {
            let s2 = self.cdr(s);
            let (r1, v1) = self.cons_step(self.car(s2), NIL);
            match r1 {
                Err(e) => (Err(e), v1),
                Ok(q) => {
                    let (r2, v2) = v1.try_set_cdr_step(p, q);
                    match r2 {
                        Err(e) => (Err(e), v2),
                        Ok(_) => v2.parts_loop(s2, q, k - 1),
                    }
                },
            }
        } else {
            (Ok((s, p)), self)
        }
    }

    /// The end of `stack_parts`: link the rest of the list, pushed onto the
    /// stack, after the last pair, and make the new list the stack.
    pub open spec fn parts_rest(self, s: Any, p: Any, lst: Any) -> (Result<(), Error>, CoreView) {
        if !self.kp_ok() {
            (Err(E_NOT_PTR), self)
        } else {
            and_then(self.cons_step(self.cdr(s), self.sp()), |t: Any, v1: CoreView|
                and_then(v1.try_set_cdr_step(p, t), |u: (), v2: CoreView|
                    if !writable(v2.kp()) {
                        (Err(E_NOT_RAM), v2)
                    } else {
                        (Ok(()), v2.set_sp_state(lst))
                    }))
        }
    }

    pub open spec fn parts_finish(self, s: Any, p: Any, k: int, lst: Any) -> (Result<(), Error>, CoreView) {
        let (r, v1) = self.parts_loop(s, p, k);
        match r {
            Ok((s2, last)) => v1.parts_rest(s2, last, lst),
            Err(e) => (Err(e), v1),
        }
    }

    /// Replacing the list on top of the stack with its first `n` elements and
    /// the rest (the rest deepest).
    pub open spec fn stack_parts_step(self, n: int) -> (Result<(), Error>, CoreView) {
        if n >= 64 {
            (Err(E_BOUNDS), self)
        } else {
            and_then(self.pop_step(), |s: Any, v1: CoreView|
                if n > 0 {
                    and_then(v1.cons_step(v1.car(s), NIL), |lst: Any, v2: CoreView| v2.parts_finish(s, lst, n, lst))
                } else {
                    (Ok(()), v1)
                })
        }
    }

    /// The loop of `stack_dup`: `k` times, link a new pair holding the first
    /// element of `s` after pair `p` and step `s` to its rest; the result is
    /// the last pair.
    pub open spec fn dup_loop(self, s: Any, p: Any, k: int) -> (Result<Any, Error>, CoreView)
        decreases k,
    {
        if k > 0 {
            let (r1, v1) = self.cons_step(self.car(s), NIL);
            match r1 {
                Err(e) => (Err(e), v1),
                Ok(q) => {
                    let (r2, v2) = v1.try_set_cdr_step(p, q);
                    match r2 {
                        Err(e) => (Err(e), v2),
                        Ok(_) => v2.dup_loop(v2.cdr(s), q, k - 1),
                    }
                },
            }
        } else {
            (Ok(p), self)
        }
    }

    /// The end of `stack_dup`: link the old stack after the copies and make
    /// the copies the stack.
    pub open spec fn dup_rest(self, p: Any, top: Any) -> (Result<(), Error>, CoreView) {
        if !self.kp_ok() {
            (Err(E_NOT_PTR), self)
        } else {
            and_then(self.try_set_cdr_step(p, self.sp()), |u: (), v1: CoreView|
                if !writable(v1.kp()) {
                    (Err(E_NOT_RAM), v1)
                } else {
                    (Ok(()), v1.set_sp_state(top))
                })
        }
    }

    pub open spec fn dup_finish(self, s: Any, p: Any, k: int, top: Any) -> (Result<(), Error>, CoreView) {
        let (r, v1) = self.dup_loop(s, p, k);
        match r {
            Ok(last) => v1.dup_rest(last, top),
            Err(e) => (Err(e), v1),
        }
    }

    /// Pushing copies of the top `n` stack items (in the same order).
    pub open spec fn stack_dup_step(self, n: int) -> (Result<(), Error>, CoreView) {
        let sp = self.sp();
        if n <= 0 {
            (Ok(()), self)
        } else if !self.kp_ok() {
            (Err(E_NOT_PTR), self)
        } else {
            and_then(self.cons_step(self.car(sp), NIL), |top: Any, v1: CoreView|
                v1.dup_finish(v1.cdr(sp), top, n - 1, top))
        }
    }

    /// Moving the `n`-th stack item to the top (`n > 1`), or the top item
    /// down to position `-n` (`n < -1`); pushing `UNDEF` or popping when the
    /// stack has no such item.
    pub open spec fn stack_roll_step(self, n: int) -> (Result<(), Error>, CoreView) {
        let sp = self.sp();
        if n > 1 {
            let (pred, nth) = self.split_from(UNDEF, sp, n);
            if n >= 64 {
                (Err(E_BOUNDS), self)
            } else if !self.kp_ok() {
                (Err(E_NOT_PTR), self)
            } else if self.typeq(PAIR_T, nth) {
                and_then(self.try_set_cdr_step(pred, self.cdr(nth)), |u: (), v1: CoreView|
                    and_then(v1.try_set_cdr_step(nth, sp), |u2: (), v2: CoreView|
                        if !writable(v2.kp()) {
                            (Err(E_NOT_RAM), v2)
                        } else {
                            (Ok(()), v2.set_sp_state(nth))
                        }))
            } else {
                self.push_step(UNDEF)
            }
        } else if n < -1 {
            let nth = self.split_from(UNDEF, sp, -n).1;
            if n <= -64 {
                (Err(E_BOUNDS), self)
            } else if !self.kp_ok() {
                (Err(E_NOT_PTR), self)
            } else if self.typeq(PAIR_T, nth) {
                if !writable(self.kp()) {
                    (Err(E_NOT_RAM), self)
                } else {
                    let v1 = self.set_sp_state(self.cdr(sp));
                    and_then(v1.try_set_cdr_step(sp, v1.cdr(nth)), |u: (), v2: CoreView|
                        v2.try_set_cdr_step(nth, sp))
                }
            } else {
                and_then(self.pop_step(), |x: Any, v1: CoreView| (Ok(()), v1))
            }
        } else {
            (Ok(()), self)
        }
    }

    /// The loop of `stack_clear`: free the pairs from `sp` on until `top`
    /// (at most `fuel` of them); the result is where it stopped.
    pub open spec fn clear_loop(self, sp: Any, top: Any, fuel: nat) -> (Result<Any, Error>, CoreView)
        decreases fuel,
    {
        if fuel > 0 && sp != top && self.typeq(PAIR_T, sp) {
            let next = self.cdr(sp);
            let (r, v1) = self.try_free_step(sp);
            match r {
                Ok(_) => v1.clear_loop(next, top, (fuel - 1) as nat),
                Err(e) => (Err(e), v1),
            }
        } else {
            (Ok(sp), self)
        }
    }

    /// Freeing the stack's pairs down to (not including) `top`.
    pub open spec fn stack_clear_step(self, top: Any) -> (Result<(), Error>, CoreView) {
        if !self.kp_ok() {
            (Err(E_NOT_PTR), self)
        } else {
            let (r, v1) = self.clear_loop(self.sp(), top, WALK_MAX as nat);
            match r {
                Ok(rest) => if !writable(v1.kp()) {
                    (Err(E_NOT_RAM), v1)
                } else {
                    (Ok(()), v1.set_sp_state(rest))
                },
                Err(e) => (Err(e), v1),
            }
        }
    }
}

} // verus!

verus! {

impl Core {
    /// Allocate an event carrying `msg` to actor `target`, sponsored by the
    /// current event's sponsor.
    pub(crate) fn new_event(&mut self, target: Any, msg: Any) -> (r: Result<Any, Error>)
        requires
            old(self)@.wf(),
            valid(target),
            valid(msg),
        ensures
            final(self)@.wf(),
            r == old(self)@.new_event_step(target, msg).0,
            final(self)@ == old(self)@.new_event_step(target, msg).1,
            r matches Ok(p) ==> valid(p) && spec_is_ptr(p),
    {
        if !self.typeq(ACTOR_T, target) {
            return Err(E_ASSERT);
        }
        let kp = self.kp();
        if is_ram(kp) && is_cap(kp) {
            return Err(E_NOT_PTR);
        }
        let ep = self.ep();
        if !is_ptr(ep) {
            return Err(E_NOT_PTR);
        }
        let sponsor = self.event_sponsor(ep);
        if !is_readable(sponsor) {
            return Err(E_NOT_PTR);
        }
        let event = Quad::new_event(sponsor, target, msg);
        self.alloc_cell(&event)
    }

    /// Reserve a continuation (no sponsor is charged).
    pub(crate) fn new_cont(&mut self, ip: Any, sp: Any, ep: Any) -> (r: Result<Any, Error>)
        requires
            old(self)@.wf(),
            valid(ip),
            valid(sp),
            valid(ep),
        ensures
            final(self)@.wf(),
            r == old(self)@.reserve_step(mk(ip, sp, ep, NIL)).0,
            final(self)@ == old(self)@.reserve_step(mk(ip, sp, ep, NIL)).1,
            r matches Ok(p) ==> writable(p),
    {
        let cont = Quad::new_cont(ip, sp, ep);
        self.reserve(&cont)
    }

    /// Allocate an actor with behavior `beh` and state `state`, returning its capability.
    pub(crate) fn new_actor(&mut self, beh: Any, state: Any) -> (r: Result<Any, Error>)
        requires
            old(self)@.wf(),
            valid(beh),
            valid(state),
        ensures
            final(self)@.wf(),
            r == old(self)@.new_actor_step(beh, state).0,
            final(self)@ == old(self)@.new_actor_step(beh, state).1,
            r matches Ok(c) ==> valid(c) && spec_is_cap(c),
    {
        let actor = Quad::new_actor(beh, state);
        let ptr = self.alloc_cell(&actor)?;
        if self.mem(ptr).t != ACTOR_T {
            return Err(E_ASSERT);
        }
        Ok(self.ptr_to_cap(ptr))
    }

    /// Push the elements of a list onto the stack, last element first (so the
    /// first element ends on top).
    pub(crate) fn push_list(&mut self, ptr: Any, fuel: usize) -> (r: Result<(), Error>)
        requires
            old(self)@.wf(),
            valid(ptr),
        ensures
            final(self)@.wf(),
            r == old(self)@.push_list_step(ptr, fuel as nat).0,
            final(self)@ == old(self)@.push_list_step(ptr, fuel as nat).1,
        decreases fuel,
    {
        if fuel > 0 && self.typeq(PAIR_T, ptr) {
            let rest = self.cdr(ptr);
            self.push_list(rest, fuel - 1)?;
            let item = self.car(ptr);
            self.stack_push(item)?;
        }
        Ok(())
    }

    /// Detach the top `n` items of the stack as a list (the stack's own
    /// pairs, cut after the `n`-th), or `NIL` when `n` is not positive.
    pub(crate) fn pop_counted(&mut self, n: isize) -> (r: Result<Any, Error>)
        requires
            old(self)@.wf(),
        ensures
            final(self)@.wf(),
            r == old(self)@.pop_counted_step(n as int).0,
            final(self)@ == old(self)@.pop_counted_step(n as int).1,
            r matches Ok(l) ==> valid(l),
    {
        if n > 0 {
            let kp = self.kp();
            if is_ram(kp) && is_cap(kp) {
                return Err(E_NOT_PTR);
            }
            let sp = self.sp();
            let mut v = sp;
            let mut p = UNDEF;
            let mut k = n;
            while k > 0 && self.typeq(PAIR_T, v)
                invariant
                    self@.wf(),
                    valid(v),
                    valid(p),
                    self@.split_from(p, v, k + 1) == self@.split_from(UNDEF, sp, n + 1),
                decreases k,
            {
                p = v;
                v = self.cdr(p);
                k -= 1;
            }
            if self.typeq(PAIR_T, p) {
                self.try_set_cdr(p, NIL)?;
            }
            if !is_writable(self.kp()) {
                return Err(E_NOT_RAM);
            }
            self.set_sp(v);
            Ok(sp)
        } else {
            Ok(NIL)
        }
    }

    /// Replace the top `n + 1` stack items with a list of the top `n` items
    /// ending in the next one.
    pub(crate) fn stack_pairs(&mut self, n: isize) -> (r: Result<(), Error>)
        requires
            old(self)@.wf(),
        ensures
            final(self)@.wf(),
            r == old(self)@.stack_pairs_step(n as int).0,
            final(self)@ == old(self)@.stack_pairs_step(n as int).1,
    {
        if n >= 64 {
            return Err(E_BOUNDS);
        }
        if n > 0 {
            let h = self.stack_pop()?;
            let lst = self.cons(h, NIL)?;
            let mut p = lst;
            let mut k = n;
            while k > 1
                invariant
                    0 < n < 64,
                    self@.wf(),
                    valid(p),
                    valid(lst),
                    old(self)@.stack_pairs_step(n as int) == self@.pairs_finish(p, k as int, lst),
                decreases k,
            {
                let h = self.stack_pop()?;
                let q = self.cons(h, NIL)?;
                self.try_set_cdr(p, q)?;
                p = q;
                k -= 1;
            }
            let t = self.stack_pop()?;
            self.try_set_cdr(p, t)?;
            self.stack_push(lst)?;
        }
        Ok(())
    }

    /// Replace the list on top of the stack with its first `n` elements and
    /// the rest (the rest deepest).
    pub(crate) fn stack_parts(&mut self, n: isize) -> (r: Result<(), Error>)
        requires
            old(self)@.wf(),
        ensures
            final(self)@.wf(),
            r == old(self)@.stack_parts_step(n as int).0,
            final(self)@ == old(self)@.stack_parts_step(n as int).1,
    {
        if n >= 64 {
            return Err(E_BOUNDS);
        }
        let mut s = self.stack_pop()?;
        if n > 0 {
            let mut k = n;
            let head = self.car(s);
            let lst = self.cons(head, NIL)?;
            let mut p = lst;
            while k > 1
                invariant
                    0 < n < 64,
                    self@.wf(),
                    valid(p),
                    valid(s),
                    valid(lst),
                    old(self)@.stack_parts_step(n as int) == self@.parts_finish(s, p, k as int, lst),
                decreases k,
            {
                s = self.cdr(s);
                let head = self.car(s);
                let q = self.cons(head, NIL)?;
                self.try_set_cdr(p, q)?;
                p = q;
                k -= 1;
            }
            let rest = self.cdr(s);
            let kp = self.kp();
            if is_ram(kp) && is_cap(kp) {
                return Err(E_NOT_PTR);
            }
            let sp = self.sp();
            let t = self.cons(rest, sp)?;
            self.try_set_cdr(p, t)?;
            if !is_writable(self.kp()) {
                return Err(E_NOT_RAM);
            }
            self.set_sp(lst);
        }
        Ok(())
    }

    /// Move the `n`-th stack item to the top (`n > 1`), or the top item down
    /// to position `-n` (`n < -1`).
    pub(crate) fn stack_roll(&mut self, n: isize) -> (r: Result<(), Error>)
        requires
            old(self)@.wf(),
        ensures
            final(self)@.wf(),
            r == old(self)@.stack_roll_step(n as int).0,
            final(self)@ == old(self)@.stack_roll_step(n as int).1,
    {
        if n > 1 {
            if n >= 64 {
                return Err(E_BOUNDS);
            }
            let kp = self.kp();
            if is_ram(kp) && is_cap(kp) {
                return Err(E_NOT_PTR);
            }
            let sp = self.sp();
            let (pred, nth) = self.split_nth(sp, n);
            if self.typeq(PAIR_T, nth) {
                let after = self.cdr(nth);
                self.try_set_cdr(pred, after)?;
                self.try_set_cdr(nth, sp)?;
                if !is_writable(self.kp()) {
                    return Err(E_NOT_RAM);
                }
                self.set_sp(nth);
            } else {
                self.stack_push(UNDEF)?;
            }
        } else if n < -1 {
            if n <= -64 {
                return Err(E_BOUNDS);
            }
            let kp = self.kp();
            if is_ram(kp) && is_cap(kp) {
                return Err(E_NOT_PTR);
            }
            let sp = self.sp();
            let (_, nth) = self.split_nth(sp, -n);
            if self.typeq(PAIR_T, nth) {
                let below = self.cdr(sp);
                if !is_writable(self.kp()) {
                    return Err(E_NOT_RAM);
                }
                self.set_sp(below);
                let after = self.cdr(nth);
                self.try_set_cdr(sp, after)?;
                self.try_set_cdr(nth, sp)?;
            } else {
                self.stack_pop()?;
            }
        }
        Ok(())
    }

    /// Push copies of the top `n` stack items (in the same order).
    pub(crate) fn stack_dup(&mut self, n: isize) -> (r: Result<(), Error>)
        requires
            old(self)@.wf(),
        ensures
            final(self)@.wf(),
            r == old(self)@.stack_dup_step(n as int).0,
            final(self)@ == old(self)@.stack_dup_step(n as int).1,
    {
        if n > 0 {
            let kp = self.kp();
            if is_ram(kp) && is_cap(kp) {
                return Err(E_NOT_PTR);
            }
            let mut s = self.sp();
            let head = self.car(s);
            let top = self.cons(head, NIL)?;
            let mut p = top;
            s = self.cdr(s);
            let mut k = n - 1;
            while k > 0
                invariant
                    0 < n,
                    self@.wf(),
                    valid(p),
                    valid(s),
                    valid(top),
                    old(self)@.stack_dup_step(n as int) == self@.dup_finish(s, p, k as int, top),
                decreases k,
            {
                let head = self.car(s);
                let q = self.cons(head, NIL)?;
                self.try_set_cdr(p, q)?;
                p = q;
                s = self.cdr(s);
                k -= 1;
            }
            let kp = self.kp();
            if is_ram(kp) && is_cap(kp) {
                return Err(E_NOT_PTR);
            }
            let old_sp = self.sp();
            self.try_set_cdr(p, old_sp)?;
            if !is_writable(self.kp()) {
                return Err(E_NOT_RAM);
            }
            self.set_sp(top);
        }
        Ok(())
    }

    /// Free the stack's pairs down to (not including) `top`.
    pub(crate) fn stack_clear(&mut self, top: Any) -> (r: Result<(), Error>)
        requires
            old(self)@.wf(),
        ensures
            final(self)@.wf(),
            r == old(self)@.stack_clear_step(top).0,
            final(self)@ == old(self)@.stack_clear_step(top).1,
    {
        let kp = self.kp();
        if is_ram(kp) && is_cap(kp) {
            return Err(E_NOT_PTR);
        }
        let mut sp = self.sp();
        let mut fuel: usize = WALK_MAX;
        while fuel > 0 && sp != top && self.typeq(PAIR_T, sp)
            invariant
                self@.wf(),
                valid(sp),
                fuel <= WALK_MAX,
                old(self)@.stack_clear_step(top) == (match self@.clear_loop(sp, top, fuel as nat) {
                    (Ok(rest), v1) => if !writable(v1.kp()) {
                        (Err::<(), Error>(E_NOT_RAM), v1)
                    } else {
                        (Ok(()), v1.set_sp_state(rest))
                    },
                    (Err(e), v1) => (Err(e), v1),
                }),
            decreases fuel,
        {
            let p = sp;
            sp = self.cdr(p);
            self.try_free(p)?;
            fuel -= 1;
        }
        if !is_writable(self.kp()) {
            return Err(E_NOT_RAM);
        }
        self.set_sp(sp);
        Ok(())
    }
}

} // verus!

verus! {

impl CoreView {
    /// The loop of `actor_commit`: move the chain of pending events starting
    /// at `ep` (at most `fuel` of them) to the event queue.
    pub open spec fn commit_loop(self, ep: Any, fuel: nat) -> (Result<(), Error>, CoreView)
        decreases fuel,
    {
        if fuel > 0 && spec_is_ram(ep) {
            if !writable(ep) {
                (Err(E_NOT_RAM), self)
            } else {
                let next = self.cell(ep).z;
                let (r, v1) = self.event_enqueue_step(ep);
                match r {
                    Ok(_) => v1.commit_loop(next, (fuel - 1) as nat),
                    Err(e) => (Err(e), v1),
                }
            }
        } else {
            (Ok(()), self)
        }
    }

    /// Ending the transaction of actor `me` successfully: free the rollback
    /// snapshot, clear the stack down to the actor's state, move the events
    /// the actor sent to the event queue, and mark the actor idle.
    pub open spec fn actor_commit_step(self, me: Any) -> (Result<(), Error>, CoreView) {
        let ep = self.ep();
        let rollback = self.cell(ep).z;
        if !self.kp_ok() || !spec_is_ptr(ep) {
            (Err(E_NOT_PTR), self)
        } else {
            and_then(
                if spec_is_ram(rollback) {
                    self.try_free_step(rollback)
                } else {
                    (Ok(()), self)
                },
                |u: (), v1: CoreView|
                    if !writable(me) {
                        (Err(E_NOT_RAM), v1)
                    } else {
                        and_then(v1.stack_clear_step(v1.cell(me).y), |u2: (), v2: CoreView|
                            and_then(v2.commit_loop(v2.cell(me).z, WALK_MAX as nat), |u3: (), v3: CoreView|
                                (Ok(()), v3.set_link(me, UNDEF))))
                    },
            )
        }
    }

    /// The loop of `actor_abort`: free the chain of pending events starting
    /// at `ep` (at most `fuel` of them).
    pub open spec fn abort_loop(self, ep: Any, fuel: nat) -> (Result<(), Error>, CoreView)
        decreases fuel,
    {
        if fuel > 0 && spec_is_ram(ep) {
            if !writable(ep) {
                (Err(E_NOT_RAM), self)
            } else {
                let next = self.cell(ep).z;
                let (r, v1) = self.try_free_step(ep);
                match r {
                    Ok(_) => v1.abort_loop(next, (fuel - 1) as nat),
                    Err(e) => (Err(e), v1),
                }
            }
        } else {
            (Ok(()), self)
        }
    }

    /// The end of `actor_abort`: restore actor `me` from the current event's
    /// rollback snapshot, if it has one, and free the snapshot.
    pub open spec fn abort_rest(self, me: Any) -> (Result<(), Error>, CoreView) {
        let ep = self.ep();
        let rollback = self.cell(ep).z;
        if !self.kp_ok() || !spec_is_ptr(ep) {
            (Err(E_NOT_PTR), self)
        } else if spec_is_ram(rollback) {
            if !writable(rollback) {
                (Err(E_NOT_PTR), self)
            } else if !valid_quad(self.cell(rollback)) {
                (Err(E_ASSERT), self)
            } else {
                self.set_cell(me, self.cell(rollback)).try_free_step(rollback)
            }
        } else {
            (Ok(()), self)
        }
    }

    /// Aborting the transaction of actor `me`: clear the stack down to the
    /// actor's state, free the events the actor sent, and restore the actor
    /// from the rollback snapshot.
    pub open spec fn actor_abort_step(self, me: Any) -> (Result<(), Error>, CoreView) {
        if !writable(me) {
            (Err(E_NOT_RAM), self)
        } else {
            and_then(self.stack_clear_step(self.cell(me).y), |u: (), v1: CoreView| {
                let (r, v2) = v1.abort_loop(v1.cell(me).z, WALK_MAX as nat);
                match r {
                    Ok(_) => v2.abort_rest(me),
                    Err(e) => (Err(e), v2),
                }
            })
        }
    }

    /// Reverting the actor and event of the head continuation to their
    /// state before the event was dispatched: the transaction is aborted
    /// with the continuation's own stack and event, the continuation leaves
    /// the queue, and the event goes to the back of the event queue
    /// (`false` when there is no continuation).
    pub open spec fn actor_revert_step(self) -> (Result<bool, Error>, CoreView) {
        let kp = self.k_first();
        let ep = self.cell(kp).y;
        let target = self.cell(ep).x;
        if !spec_is_ram(kp) {
            (Ok(false), self)
        } else if !writable(kp) {
            (Err(E_NOT_RAM), self)
        } else if !spec_is_ptr(ep) {
            (Err(E_NOT_PTR), self)
        } else if spec_is_fix(target) || self.cell(target).t != ACTOR_T {
            (Err(E_ASSERT), self)
        } else {
            and_then(self.actor_abort_step(clear_opq(target)), |u: (), v1: CoreView|
                and_then(v1.cont_dequeue_step(), |k: Option<Any>, v2: CoreView|
                    if k != Some(kp) {
                        (Err(E_ASSERT), v2)
                    } else if !writable(ep) {
                        (Err(E_NOT_RAM), v2)
                    } else {
                        and_then(v2.event_enqueue_step(ep), |u2: (), v3: CoreView| (Ok(true), v3))
                    }))
        }
    }
}

impl Core {
    /// End an actor transaction successfully: release the rollback snapshot,
    /// clear the stack down to the actor's state, move the events the actor
    /// sent to the event queue, and mark the actor idle.
    pub(crate) fn actor_commit(&mut self, me: Any) -> (r: Result<(), Error>)
        requires
            old(self)@.wf(),
            valid(me),
        ensures
            final(self)@.wf(),
            r == old(self)@.actor_commit_step(me).0,
            final(self)@ == old(self)@.actor_commit_step(me).1,
    {
        let kp = self.kp();
        if is_ram(kp) && is_cap(kp) {
            return Err(E_NOT_PTR);
        }
        let ep = self.ep();
        if !is_ptr(ep) {
            return Err(E_NOT_PTR);
        }
        let rollback = self.mem(ep).z;
        if is_ram(rollback) {
            self.try_free(rollback)?;
        }
        if !is_writable(me) {
            return Err(E_NOT_RAM);
        }
        let state = self.ram(me).y;
        self.stack_clear(state)?;
        let mut ep = self.ram(me).z;
        let mut fuel: usize = WALK_MAX;
        while fuel > 0 && is_ram(ep)
            invariant
                self@.wf(),
                valid(ep),
                writable(me),
                fuel <= WALK_MAX,
                old(self)@.actor_commit_step(me) == (match self@.commit_loop(ep, fuel as nat) {
                    (Ok(_), v3) => (Ok::<(), Error>(()), v3.set_link(me, UNDEF)),
                    (Err(e), v3) => (Err(e), v3),
                }),
            decreases fuel,
        {
            if !is_writable(ep) {
                return Err(E_NOT_RAM);
            }
            let next = self.ram(ep).z;
            self.event_enqueue(ep)?;
            ep = next;
            fuel -= 1;
        }
        self.set_link(me, UNDEF);
        Ok(())
    }

    /// Abort an actor transaction: clear the stack down to the actor's
    /// state, free the events the actor sent, and restore the actor from the
    /// rollback snapshot (freeing the snapshot).
    pub(crate) fn actor_abort(&mut self, me: Any) -> (r: Result<(), Error>)
        requires
            old(self)@.wf(),
            valid(me),
        ensures
            final(self)@.wf(),
            r == old(self)@.actor_abort_step(me).0,
            final(self)@ == old(self)@.actor_abort_step(me).1,
    {
        if !is_writable(me) {
            return Err(E_NOT_RAM);
        }
        let state = self.ram(me).y;
        self.stack_clear(state)?;
        let mut ep = self.ram(me).z;
        let mut fuel: usize = WALK_MAX;
        while fuel > 0 && is_ram(ep)
            invariant
                self@.wf(),
                valid(ep),
                writable(me),
                fuel <= WALK_MAX,
                old(self)@.actor_abort_step(me) == (match self@.abort_loop(ep, fuel as nat) {
                    (Ok(_), v2) => v2.abort_rest(me),
                    (Err(e), v2) => (Err(e), v2),
                }),
            decreases fuel,
        {
            if !is_writable(ep) {
                return Err(E_NOT_RAM);
            }
            let next = self.ram(ep).z;
            self.try_free(ep)?;
            ep = next;
            fuel -= 1;
        }
        let kp = self.kp();
        if is_ram(kp) && is_cap(kp) {
            return Err(E_NOT_PTR);
        }
        let ep = self.ep();
        if !is_ptr(ep) {
            return Err(E_NOT_PTR);
        }
        let rollback = self.mem(ep).z;
        if is_ram(rollback) {
            if !is_writable(rollback) {
                return Err(E_NOT_PTR);
            }
            let quad = self.mem(rollback);
            if !(crate::quad::is_valid_quad(quad)) {
                return Err(E_ASSERT);
            }
            proof {
                crate::cpu::lemma_valid_quad_at(me, quad);
            }
            self.ram_mut(me, quad);
            self.try_free(rollback)?;
        }
        Ok(())
    }

    /// Revert the actor and event of the head continuation to their state
    /// before the event was dispatched: abort the transaction with the
    /// continuation's own stack and event, take the continuation off the
    /// queue, and put the event back at the end of the event queue. Returns
    /// `false` when there is no continuation.
    pub fn actor_revert(&mut self) -> (r: Result<bool, Error>)
        requires
            old(self)@.wf(),
        ensures
            final(self)@.wf(),
            r == old(self)@.actor_revert_step().0,
            final(self)@ == old(self)@.actor_revert_step().1,
    {
        let kp = self.k_first();
        if !is_ram(kp) {
            return Ok(false);
        }
        if !is_writable(kp) {
            return Err(E_NOT_RAM);
        }
        let ep = self.mem(kp).y;
        if !is_ptr(ep) {
            return Err(E_NOT_PTR);
        }
        let target = self.mem(ep).x;
        if crate::value::is_fix(target) {
            return Err(E_ASSERT);
        }
        proof {
            crate::value::lemma_raw_edits(target);
            crate::value::lemma_opq_fields(target);
        }
        if self.mem(target & !crate::value::OPQ_RAW).t != ACTOR_T {
            return Err(E_ASSERT);
        }
        let me = self.cap_to_ptr(target);
        self.actor_abort(me)?;
        match self.cont_dequeue()? {
            Some(k) => {
                if k != kp {
                    return Err(E_ASSERT);
                }
            },
            None => {
                return Err(E_ASSERT);
            },
        }
        if !is_writable(ep) {
            return Err(E_NOT_RAM);
        }
        self.event_enqueue(ep)?;
        Ok(true)
    }
}

} // verus!
