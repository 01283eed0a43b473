//! The event queue and the continuation queue as sequences of cells.
//!
//! Each queue is a chain of RAM cells linked through their `z` fields, with
//! its first and last cell recorded in the queue descriptor. Adding a cell
//! appends it to the sequence; taking one off gives the first cell and drops
//! it from the sequence: both queues are first-in first-out.
use vstd::prelude::*;
use crate::value::{Any, Error, spec_is_ram, spec_ofs, spec_is_ptr, spec_is_fix, fix_val, clear_opq, NIL, UNDEF, ACTOR_T};
use crate::interp::{Dispatch, DEVICE_MAX};
use crate::quad::{Quad, valid_quad};
use crate::cpu::{CoreView, same_cell, writable, readable, valid_at, valid_cell};

verus! {

impl CoreView {
    /// The cells `s` form a queue from `first` to `last`, each linked to the
    /// next through its `z` field, the last to no RAM cell; the queue is
    /// empty when `first` is no RAM reference.
    pub open spec fn linked_queue(self, first: Any, last: Any, s: Seq<Any>) -> bool {
        if s.len() == 0 {
            !spec_is_ram(first)
        } else {
            &&& first == s[0]
            &&& last == s.last()
            &&& forall|i: int| 0 <= i < s.len() ==> writable(#[trigger] s[i]) && !same_cell(s[i], self.ddeque())
            &&& forall|i: int, j: int| 0 <= i < j < s.len() ==> !same_cell(#[trigger] s[i], #[trigger] s[j])
            &&& forall|i: int| 0 <= i < s.len() - 1 ==> (#[trigger] self.cell(s[i])).z == s[i + 1]
            &&& !spec_is_ram(self.cell(s.last()).z)
        }
    }

    /// The events waiting in the event queue, first to last.
    pub open spec fn event_queue(self, s: Seq<Any>) -> bool {
        self.linked_queue(self.e_first(), self.e_last(), s)
    }

    /// The continuations waiting in the continuation queue, first to last.
    pub open spec fn cont_queue(self, s: Seq<Any>) -> bool {
        self.linked_queue(self.k_first(), self.k_last(), s)
    }

    /// Writing a RAM cell other than the cells `t` keeps the cells `t`, the
    /// queue descriptor's place and well-formed memory.
    pub proof fn lemma_cells_kept(self, a: Any, q: Quad, t: Seq<Any>)
        requires
            self.wf(),
            writable(a),
            q.t == self.cell(a).t || spec_ofs(a) != 0,
            valid_at(a, q),
            forall|i: int| 0 <= i < t.len() ==> writable(#[trigger] t[i]) && !same_cell(a, t[i]),
        ensures
            self.set_cell(a, q).wf(),
            self.set_cell(a, q).ddeque() == self.ddeque(),
            self.set_cell(a, q).cell(a) == q,
            forall|i: int| 0 <= i < t.len() ==> #[trigger] self.set_cell(a, q).cell(t[i]) == self.cell(t[i]),
    {
        self.lemma_set_cell_keeps_phase(a, q);
        self.lemma_set_cell_wf(a, q);
        assert forall|i: int| 0 <= i < t.len() implies #[trigger] self.set_cell(a, q).cell(t[i]) == self.cell(t[i]) by {
            assert(writable(t[i]) && !same_cell(a, t[i]));
        }
    }

    /// A link written into a cell keeps what may stand in it.
    pub proof fn lemma_link_valid(self, a: Any, next: Any)
        requires
            self.wf(),
            writable(a),
            writable(next) || next == NIL,
        ensures
            valid_at(a, Quad { z: next, ..self.cell(a) }),
    {
    }

    /// The queue descriptor is a RAM cell past the memory descriptor that
    /// holds a valid quad.
    pub proof fn lemma_descriptor(self)
        requires
            self.wf(),
        ensures
            spec_ofs(self.ddeque()) != 0,
            writable(self.ddeque()),
            valid_quad(self.dq_cell()),
    {
        crate::value::lemma_ram_ptr(self.phase(), 1);
    }
}

/// Adding an event to the back of the event queue appends it to the queue's
/// sequence of events.
pub proof fn law_event_enqueue_appends(v: CoreView, s: Seq<Any>, e: Any)
    requires
        v.wf(),
        v.event_queue(s),
        writable(e),
        !same_cell(e, v.ddeque()),
        forall|i: int| 0 <= i < s.len() ==> !same_cell(e, #[trigger] s[i]),
    ensures
        v.event_enqueue_step(e).0 == Ok::<(), Error>(()),
        v.event_enqueue_step(e).1.wf(),
        v.event_enqueue_step(e).1.event_queue(s.push(e)),
{
    let dq = v.ddeque();
    let s1 = s.push(e);
    assert(v.cell(dq).t == v.e_first());
    let q0 = Quad { z: NIL, ..v.cell(e) };
    v.lemma_link_valid(e, NIL);
    assert forall|i: int| 0 <= i < s.len() implies writable(#[trigger] s[i]) && !same_cell(e, s[i]) by {
        if s.len() > 0 {
            assert(writable(s[i]));
        }
    }
    v.lemma_cells_kept(e, q0, s.push(dq));
    let v1 = v.set_link(e, NIL);
    assert(v1.cell(dq) == v.cell(dq)) by {
        assert(s.push(dq)[s.len() as int] == dq);
        crate::value::lemma_ram_ptr(v.phase(), 1);
    }
    if !spec_is_ram(v1.e_first()) {
        assert(s.len() == 0);
        assert(s1 =~= seq![e]);
        let q1 = Quad { t: e, ..v1.dq_cell() };
        v1.lemma_descriptor();
        v1.lemma_cells_kept(dq, q1, s1);
        let v2 = v1.set_ddeque(q1);
        let q2 = Quad { x: e, ..v2.dq_cell() };
        v2.lemma_descriptor();
        v2.lemma_cells_kept(dq, q2, s1);
        let w = v2.set_ddeque(q2);
        assert(w == v.event_enqueue_state(e));
        assert(w.cell(e).z == NIL);
        assert(w.event_queue(s1));
    } else {
        assert(s.len() > 0);
        let l = s.last();
        assert(writable(l)) by {
            assert(writable(s[s.len() - 1]));
        }
        let q1 = Quad { z: e, ..v1.cell(l) };
        v1.lemma_link_valid(l, e);
        let keep = s.drop_last().push(e);
        assert forall|i: int| 0 <= i < keep.len() implies writable(#[trigger] keep[i]) && !same_cell(l, keep[i]) by {
            if i < s.len() - 1 {
                assert(keep[i] == s[i]);
                assert(!same_cell(s[i], s[s.len() - 1]));
            } else {
                assert(keep[i] == e);
                assert(!same_cell(e, s[s.len() - 1]));
            }
        }
        v1.lemma_cells_kept(l, q1, keep.push(dq));
        let v2 = v1.set_link(l, e);
        assert(!same_cell(l, dq));
        assert(v2.cell(dq) == v1.cell(dq)) by {
            assert(keep.push(dq)[keep.len() as int] == dq);
        }
        let q2 = Quad { x: e, ..v2.dq_cell() };
        v2.lemma_descriptor();
        v2.lemma_cells_kept(dq, q2, s1);
        let w = v2.set_ddeque(q2);
        assert(w == v.event_enqueue_state(e));
        assert forall|i: int| 0 <= i < s1.len() - 1 implies (#[trigger] w.cell(s1[i])).z == s1[i + 1] by {
            if i < s.len() - 1 {
                assert(keep.push(dq)[i] == s[i]);
                assert(v1.cell(s[i]) == v.cell(s[i]));
            }
        }
        assert(w.cell(e).z == NIL) by {
            assert(keep.push(dq)[s.len() - 1] == e);
        }
        assert forall|i: int, j: int| 0 <= i < j < s1.len() implies !same_cell(#[trigger] s1[i], #[trigger] s1[j]) by {
            if j == s.len() {
                assert(!same_cell(e, s[i]));
            }
        }
        assert(w.event_queue(s1));
    }
}

/// Taking an event off the event queue gives the first event of the queue's
/// sequence and leaves the rest; an empty queue gives nothing and stays as
/// it is.
pub proof fn law_event_dequeue_takes_first(v: CoreView, s: Seq<Any>)
    requires
        v.wf(),
        v.event_queue(s),
    ensures
        s.len() == 0 ==> v.event_dequeue_step() == (Ok::<Option<Any>, Error>(None), v),
        s.len() > 0 ==> v.event_dequeue_step().0 == Ok::<Option<Any>, Error>(Some(s[0])),
        s.len() > 0 ==> v.event_dequeue_step().1.wf(),
        s.len() > 0 ==> v.event_dequeue_step().1.event_queue(s.drop_first()),
{
    if s.len() > 0 {
        let dq = v.ddeque();
        let s1 = s.drop_first();
        assert(writable(s[0]));
        let next = v.cell(s[0]).z;
        assert(s.len() > 1 ==> next == s[1]);
        assert(s.len() == 1 ==> !spec_is_ram(next));
        assert(s.len() > 1 ==> writable(s[1]));
        let q1 = Quad { t: next, ..v.dq_cell() };
        v.lemma_descriptor();
        v.lemma_cells_kept(dq, q1, s);
        let v1 = v.set_ddeque(q1);
        if !spec_is_ram(next) {
            let q2 = Quad { x: NIL, ..v1.dq_cell() };
            v1.lemma_descriptor();
            v1.lemma_cells_kept(dq, q2, s);
            let w = v1.set_ddeque(q2);
            assert(w == v.event_dequeue_state());
        } else {
            assert(v1 == v.event_dequeue_state());
            assert forall|i: int| 0 <= i < s1.len() - 1 implies (#[trigger] v1.cell(s1[i])).z == s1[i + 1] by {
                assert(v.cell(s[i + 1]).z == s[i + 2]);
            }
            assert(v1.event_queue(s1));
        }
    }
}

/// Adding a continuation to the back of the continuation queue appends it to
/// the queue's sequence of continuations.
pub proof fn law_cont_enqueue_appends(v: CoreView, s: Seq<Any>, k: Any)
    requires
        v.wf(),
        v.cont_queue(s),
        writable(k),
        !same_cell(k, v.ddeque()),
        forall|i: int| 0 <= i < s.len() ==> !same_cell(k, #[trigger] s[i]),
    ensures
        v.cont_enqueue_step(k).0 == Ok::<(), Error>(()),
        v.cont_enqueue_step(k).1.wf(),
        v.cont_enqueue_step(k).1.cont_queue(s.push(k)),
{
    let dq = v.ddeque();
    let s1 = s.push(k);
    let q0 = Quad { z: NIL, ..v.cell(k) };
    v.lemma_link_valid(k, NIL);
    assert forall|i: int| 0 <= i < s.len() implies writable(#[trigger] s[i]) && !same_cell(k, s[i]) by {
        if s.len() > 0 {
            assert(writable(s[i]));
        }
    }
    v.lemma_cells_kept(k, q0, s.push(dq));
    let v1 = v.set_link(k, NIL);
    assert(v1.cell(dq) == v.cell(dq)) by {
        assert(s.push(dq)[s.len() as int] == dq);
        crate::value::lemma_ram_ptr(v.phase(), 1);
    }
    if !spec_is_ram(v1.k_first()) {
        assert(s.len() == 0);
        assert(s1 =~= seq![k]);
        let q1 = Quad { y: k, ..v1.dq_cell() };
        v1.lemma_descriptor();
        v1.lemma_cells_kept(dq, q1, s1);
        let v2 = v1.set_ddeque(q1);
        let q2 = Quad { z: k, ..v2.dq_cell() };
        v2.lemma_descriptor();
        v2.lemma_cells_kept(dq, q2, s1);
        let w = v2.set_ddeque(q2);
        assert(w == v.cont_enqueue_state(k));
        assert(w.cell(k).z == NIL);
        assert(w.cont_queue(s1));
    } else {
        assert(s.len() > 0);
        let l = s.last();
        assert(writable(l)) by {
            assert(writable(s[s.len() - 1]));
        }
        let q1 = Quad { z: k, ..v1.cell(l) };
        v1.lemma_link_valid(l, k);
        let keep = s.drop_last().push(k);
        assert forall|i: int| 0 <= i < keep.len() implies writable(#[trigger] keep[i]) && !same_cell(l, keep[i]) by {
            if i < s.len() - 1 {
                assert(keep[i] == s[i]);
                assert(!same_cell(s[i], s[s.len() - 1]));
            } else {
                assert(keep[i] == k);
                assert(!same_cell(k, s[s.len() - 1]));
            }
        }
        v1.lemma_cells_kept(l, q1, keep.push(dq));
        let v2 = v1.set_link(l, k);
        assert(!same_cell(l, dq));
        assert(v2.cell(dq) == v1.cell(dq)) by {
            assert(keep.push(dq)[keep.len() as int] == dq);
        }
        let q2 = Quad { z: k, ..v2.dq_cell() };
        v2.lemma_descriptor();
        v2.lemma_cells_kept(dq, q2, s1);
        let w = v2.set_ddeque(q2);
        assert(w == v.cont_enqueue_state(k));
        assert forall|i: int| 0 <= i < s1.len() - 1 implies (#[trigger] w.cell(s1[i])).z == s1[i + 1] by {
            if i < s.len() - 1 {
                assert(keep.push(dq)[i] == s[i]);
                assert(v1.cell(s[i]) == v.cell(s[i]));
            }
        }
        assert(w.cell(k).z == NIL) by {
            assert(keep.push(dq)[s.len() - 1] == k);
        }
        assert forall|i: int, j: int| 0 <= i < j < s1.len() implies !same_cell(#[trigger] s1[i], #[trigger] s1[j]) by {
            if j == s.len() {
                assert(!same_cell(k, s[i]));
            }
        }
        assert(w.cont_queue(s1));
    }
}

/// Taking a continuation off the continuation queue gives the first one of
/// the queue's sequence and leaves the rest; an empty queue gives nothing
/// and stays as it is.
pub proof fn law_cont_dequeue_takes_first(v: CoreView, s: Seq<Any>)
    requires
        v.wf(),
        v.cont_queue(s),
    ensures
        s.len() == 0 ==> v.cont_dequeue_step() == (Ok::<Option<Any>, Error>(None), v),
        s.len() > 0 ==> v.cont_dequeue_step().0 == Ok::<Option<Any>, Error>(Some(s[0])),
        s.len() > 0 ==> v.cont_dequeue_step().1.wf(),
        s.len() > 0 ==> v.cont_dequeue_step().1.cont_queue(s.drop_first()),
{
    if s.len() > 0 {
        let dq = v.ddeque();
        let s1 = s.drop_first();
        assert(writable(s[0]));
        let next = v.cell(s[0]).z;
        assert(s.len() > 1 ==> next == s[1]);
        assert(s.len() == 1 ==> !spec_is_ram(next));
        assert(s.len() > 1 ==> writable(s[1]));
        let q1 = Quad { y: next, ..v.dq_cell() };
        v.lemma_descriptor();
        v.lemma_cells_kept(dq, q1, s);
        let v1 = v.set_ddeque(q1);
        if !spec_is_ram(next) {
            let q2 = Quad { z: NIL, ..v1.dq_cell() };
            v1.lemma_descriptor();
            v1.lemma_cells_kept(dq, q2, s);
            let w = v1.set_ddeque(q2);
            assert(w == v.cont_dequeue_state());
        } else {
            assert(v1 == v.cont_dequeue_state());
            assert forall|i: int| 0 <= i < s1.len() - 1 implies (#[trigger] v1.cell(s1[i])).z == s1[i + 1] by {
                assert(v.cell(s[i + 1]).z == s[i + 2]);
            }
            assert(v1.cont_queue(s1));
        }
    }
}

impl CoreView {
    /// The event at the front of the queue can be dispatched: its sponsor
    /// can be read and has events left, and its target is an actor.
    pub open spec fn dispatch_ready(self) -> bool {
        let event = self.cell(self.e_first());
        let sponsor = event.t;
        &&& spec_is_ptr(sponsor)
        &&& readable(sponsor)
        &&& self.quota_of(self.cell(sponsor).x) > 0
        &&& !spec_is_fix(event.x)
        &&& self.cell(event.x).t == ACTOR_T
    }

    /// The behavior of the actor the front event is addressed to.
    pub open spec fn front_target(self) -> Quad {
        self.cell(clear_opq(self.cell(self.e_first()).x))
    }
}

/// An event for an actor that is busy with another event goes from the
/// front of the event queue to its back, and nothing is dispatched.
pub proof fn law_dispatch_busy_requeues(v: CoreView, s: Seq<Any>)
    requires
        v.wf(),
        v.event_queue(s),
        s.len() > 0,
        v.dispatch_ready(),
        !spec_is_fix(v.front_target().x),
        v.front_target().z != UNDEF,
    ensures
        v.dispatch_step().0 == Ok::<Dispatch, Error>(Dispatch::Idle),
        v.dispatch_step().1.event_queue(s.drop_first().push(s[0])),
{
    law_event_dequeue_takes_first(v, s);
    let v1 = v.event_dequeue_step().1;
    let s1 = s.drop_first();
    assert(writable(s[0]) && !same_cell(s[0], v.ddeque()));
    assert(v1.ddeque() == v.ddeque()) by {
        v.lemma_descriptor();
        v.lemma_cells_kept(v.ddeque(), Quad { t: v.cell(s[0]).z, ..v.dq_cell() }, Seq::<Any>::empty());
    }
    assert forall|i: int| 0 <= i < s1.len() implies !same_cell(s[0], #[trigger] s1[i]) by {
        assert(s1[i] == s[i + 1]);
    }
    law_event_enqueue_appends(v1, s1, s[0]);
}

/// An event for a device is taken off the front of the event queue and
/// handed out with the device's number.
pub proof fn law_dispatch_device_takes_front(v: CoreView, s: Seq<Any>)
    requires
        v.wf(),
        v.event_queue(s),
        s.len() > 0,
        v.dispatch_ready(),
        spec_is_fix(v.front_target().x),
        0 <= fix_val(v.front_target().x) < DEVICE_MAX,
    ensures
        v.dispatch_step().0 == Ok::<Dispatch, Error>(Dispatch::Device(fix_val(v.front_target().x) as usize, s[0])),
        v.dispatch_step().1.event_queue(s.drop_first()),
{
    law_event_dequeue_takes_first(v, s);
}

/// Adding a continuation writes only the new continuation, the last one
/// before it, and the continuation fields of the queue descriptor: other
/// cells and the event fields stay.
pub proof fn lemma_cont_enqueue_frame(v: CoreView, t: Seq<Any>, k: Any, u: Seq<Any>)
    requires
        v.wf(),
        v.cont_queue(t),
        writable(k),
        !same_cell(k, v.ddeque()),
        forall|i: int| 0 <= i < t.len() ==> !same_cell(k, #[trigger] t[i]),
        forall|i: int| 0 <= i < u.len() ==> writable(#[trigger] u[i]) && !same_cell(u[i], v.ddeque()) && !same_cell(u[i], k),
        forall|i: int, j: int| 0 <= i < u.len() && 0 <= j < t.len() ==> !same_cell(#[trigger] u[i], #[trigger] t[j]),
    ensures
        v.cont_enqueue_step(k).1.ddeque() == v.ddeque(),
        v.cont_enqueue_step(k).1.dq_cell().t == v.dq_cell().t,
        v.cont_enqueue_step(k).1.dq_cell().x == v.dq_cell().x,
        forall|i: int| 0 <= i < u.len() ==> #[trigger] v.cont_enqueue_step(k).1.cell(u[i]) == v.cell(u[i]),
        v.cont_enqueue_step(k).1.cell(k) == (Quad { z: NIL, ..v.cell(k) }),
{
    law_cont_enqueue_appends(v, t, k);
    let dq = v.ddeque();
    let q0 = Quad { z: NIL, ..v.cell(k) };
    v.lemma_link_valid(k, NIL);
    v.lemma_cells_kept(k, q0, u.push(dq));
    let v1 = v.set_link(k, NIL);
    assert(v1.cell(dq) == v.cell(dq)) by {
        assert(u.push(dq)[u.len() as int] == dq);
        crate::value::lemma_ram_ptr(v.phase(), 1);
    }
    assert forall|i: int| 0 <= i < u.len() implies #[trigger] v1.cell(u[i]) == v.cell(u[i]) by {
        assert(u.push(dq)[i] == u[i]);
    }
    if !spec_is_ram(v1.k_first()) {
        let q1 = Quad { y: k, ..v1.dq_cell() };
        v1.lemma_descriptor();
        v1.lemma_cells_kept(dq, q1, u);
        v1.lemma_cells_kept(dq, q1, seq![k]);
        let v2 = v1.set_ddeque(q1);
        let q2 = Quad { z: k, ..v2.dq_cell() };
        v2.lemma_descriptor();
        v2.lemma_cells_kept(dq, q2, u);
        v2.lemma_cells_kept(dq, q2, seq![k]);
    } else {
        let l = t.last();
        assert(writable(l)) by {
            assert(writable(t[t.len() - 1]));
        }
        let q1 = Quad { z: k, ..v1.cell(l) };
        v1.lemma_link_valid(l, k);
        assert forall|i: int| 0 <= i < u.push(dq).len() implies writable(#[trigger] u.push(dq)[i]) && !same_cell(l, u.push(dq)[i]) by {
            if i < u.len() {
                assert(u.push(dq)[i] == u[i]);
                assert(!same_cell(u[i], t[t.len() - 1]));
            } else {
                v.lemma_descriptor();
                assert(!same_cell(t[t.len() - 1], dq));
            }
        }
        v1.lemma_cells_kept(l, q1, u.push(dq));
        assert(!same_cell(l, k)) by {
            assert(!same_cell(k, t[t.len() - 1]));
        }
        v1.lemma_cells_kept(l, q1, seq![k]);
        let v2 = v1.set_link(l, k);
        assert(v2.cell(dq) == v1.cell(dq)) by {
            assert(u.push(dq)[u.len() as int] == dq);
        }
        assert forall|i: int| 0 <= i < u.len() implies #[trigger] v2.cell(u[i]) == v1.cell(u[i]) by {
            assert(u.push(dq)[i] == u[i]);
        }
        let q2 = Quad { z: k, ..v2.dq_cell() };
        v2.lemma_descriptor();
        v2.lemma_cells_kept(dq, q2, u);
        v2.lemma_cells_kept(dq, q2, seq![k]);
    }
}

/// Taking an event off the queue writes only the event fields of the queue
/// descriptor: every other cell and the continuation fields stay.
pub proof fn lemma_event_dequeue_frame(v: CoreView, s: Seq<Any>, u: Seq<Any>)
    requires
        v.wf(),
        v.event_queue(s),
        s.len() > 0,
        forall|i: int| 0 <= i < u.len() ==> writable(#[trigger] u[i]) && !same_cell(u[i], v.ddeque()),
    ensures
        v.event_dequeue_step().1.ddeque() == v.ddeque(),
        v.event_dequeue_step().1.dq_cell().y == v.dq_cell().y,
        v.event_dequeue_step().1.dq_cell().z == v.dq_cell().z,
        forall|i: int| 0 <= i < u.len() ==> #[trigger] v.event_dequeue_step().1.cell(u[i]) == v.cell(u[i]),
{
    law_event_dequeue_takes_first(v, s);
    let dq = v.ddeque();
    assert(writable(s[0]));
    let next = v.cell(s[0]).z;
    let q1 = Quad { t: next, ..v.dq_cell() };
    v.lemma_descriptor();
    assert forall|i: int| 0 <= i < u.len() implies writable(#[trigger] u[i]) && !same_cell(dq, u[i]) by {}
    v.lemma_cells_kept(dq, q1, u);
    let v1 = v.set_ddeque(q1);
    if !spec_is_ram(next) {
        let q2 = Quad { x: NIL, ..v1.dq_cell() };
        v1.lemma_descriptor();
        v1.lemma_cells_kept(dq, q2, u);
    }
}

/// Taking a continuation off the queue writes only the continuation fields
/// of the queue descriptor: every other cell and the event fields stay.
pub proof fn lemma_cont_dequeue_frame(v: CoreView, t: Seq<Any>, u: Seq<Any>)
    requires
        v.wf(),
        v.cont_queue(t),
        t.len() > 0,
        forall|i: int| 0 <= i < u.len() ==> writable(#[trigger] u[i]) && !same_cell(u[i], v.ddeque()),
    ensures
        v.cont_dequeue_step().1.ddeque() == v.ddeque(),
        v.cont_dequeue_step().1.dq_cell().t == v.dq_cell().t,
        v.cont_dequeue_step().1.dq_cell().x == v.dq_cell().x,
        forall|i: int| 0 <= i < u.len() ==> #[trigger] v.cont_dequeue_step().1.cell(u[i]) == v.cell(u[i]),
{
    law_cont_dequeue_takes_first(v, t);
    let dq = v.ddeque();
    assert(writable(t[0]));
    let next = v.cell(t[0]).z;
    let q1 = Quad { y: next, ..v.dq_cell() };
    v.lemma_descriptor();
    assert forall|i: int| 0 <= i < u.len() implies writable(#[trigger] u[i]) && !same_cell(dq, u[i]) by {}
    v.lemma_cells_kept(dq, q1, u);
    let v1 = v.set_ddeque(q1);
    if !spec_is_ram(next) {
        let q2 = Quad { z: NIL, ..v1.dq_cell() };
        v1.lemma_descriptor();
        v1.lemma_cells_kept(dq, q2, u);
    }
}

/// Adding an event writes only the new event, the last one before it, and
/// the event fields of the queue descriptor: other cells stay.
pub proof fn lemma_event_enqueue_frame(v: CoreView, s: Seq<Any>, e: Any, u: Seq<Any>)
    requires
        v.wf(),
        v.event_queue(s),
        writable(e),
        !same_cell(e, v.ddeque()),
        forall|i: int| 0 <= i < s.len() ==> !same_cell(e, #[trigger] s[i]),
        forall|i: int| 0 <= i < u.len() ==> writable(#[trigger] u[i]) && !same_cell(u[i], v.ddeque()) && !same_cell(u[i], e),
        forall|i: int, j: int| 0 <= i < u.len() && 0 <= j < s.len() ==> !same_cell(#[trigger] u[i], #[trigger] s[j]),
    ensures
        v.event_enqueue_step(e).1.ddeque() == v.ddeque(),
        forall|i: int| 0 <= i < u.len() ==> #[trigger] v.event_enqueue_step(e).1.cell(u[i]) == v.cell(u[i]),
        v.event_enqueue_step(e).1.cell(e) == (Quad { z: NIL, ..v.cell(e) }),
        v.event_enqueue_step(e).1.dq_cell().y == v.dq_cell().y,
        v.event_enqueue_step(e).1.dq_cell().z == v.dq_cell().z,
{
    law_event_enqueue_appends(v, s, e);
    let dq = v.ddeque();
    let q0 = Quad { z: NIL, ..v.cell(e) };
    v.lemma_link_valid(e, NIL);
    v.lemma_cells_kept(e, q0, u.push(dq));
    let v1 = v.set_link(e, NIL);
    assert(v1.cell(dq) == v.cell(dq)) by {
        assert(u.push(dq)[u.len() as int] == dq);
        crate::value::lemma_ram_ptr(v.phase(), 1);
    }
    assert forall|i: int| 0 <= i < u.len() implies #[trigger] v1.cell(u[i]) == v.cell(u[i]) by {
        assert(u.push(dq)[i] == u[i]);
    }
    if !spec_is_ram(v1.e_first()) {
        let q1 = Quad { t: e, ..v1.dq_cell() };
        v1.lemma_descriptor();
        v1.lemma_cells_kept(dq, q1, u);
        v1.lemma_cells_kept(dq, q1, seq![e]);
        let v2 = v1.set_ddeque(q1);
        let q2 = Quad { x: e, ..v2.dq_cell() };
        v2.lemma_descriptor();
        v2.lemma_cells_kept(dq, q2, u);
        v2.lemma_cells_kept(dq, q2, seq![e]);
    } else {
        let l = s.last();
        assert(writable(l)) by {
            assert(writable(s[s.len() - 1]));
        }
        let q1 = Quad { z: e, ..v1.cell(l) };
        v1.lemma_link_valid(l, e);
        assert forall|i: int| 0 <= i < u.len() implies writable(#[trigger] u[i]) && !same_cell(l, u[i]) by {
            assert(!same_cell(u[i], s[s.len() - 1]));
        }
        v1.lemma_cells_kept(l, q1, u);
        v1.lemma_cells_kept(l, q1, seq![dq]);
        assert(!same_cell(l, e)) by {
            assert(!same_cell(e, s[s.len() - 1]));
        }
        v1.lemma_cells_kept(l, q1, seq![e]);
        let v2 = v1.set_link(l, e);
        assert(v2.cell(dq) == v1.cell(dq)) by {
            assert(seq![dq][0] == dq);
        }
        let q2 = Quad { x: e, ..v2.dq_cell() };
        v2.lemma_descriptor();
        v2.lemma_cells_kept(dq, q2, u);
        v2.lemma_cells_kept(dq, q2, seq![e]);
    }
}

impl CoreView {
    /// The cells `p` form a chain of events from `first`, each linked to the
    /// next through its `z` field (empty when `first` is no RAM reference).
    pub open spec fn event_chain(self, first: Any, p: Seq<Any>) -> bool {
        self.linked_queue(first, if p.len() > 0 { p.last() } else { first }, p)
    }
}

/// Committing moves the events an actor sent, chained from its cell, to the
/// back of the event queue, in the order of the chain.
pub proof fn law_commit_moves_sent_events(v: CoreView, s: Seq<Any>, p: Seq<Any>, ep: Any, fuel: nat)
    requires
        v.wf(),
        v.event_queue(s),
        v.event_chain(ep, p),
        p.len() < fuel,
        forall|i: int, j: int| 0 <= i < s.len() && 0 <= j < p.len() ==> !same_cell(#[trigger] s[i], #[trigger] p[j]),
    ensures
        v.commit_loop(ep, fuel).0 == Ok::<(), Error>(()),
        v.commit_loop(ep, fuel).1.wf(),
        v.commit_loop(ep, fuel).1.event_queue(s + p),
    decreases fuel,
{
    if p.len() == 0 {
        assert(s + p =~= s);
    } else {
        let e = p[0];
        let p1 = p.drop_first();
        let next = v.cell(e).z;
        assert(writable(e) && !same_cell(e, v.ddeque()));
        assert forall|i: int| 0 <= i < s.len() implies !same_cell(e, #[trigger] s[i]) by {
            assert(!same_cell(s[i], p[0]));
        }
        law_event_enqueue_appends(v, s, e);
        assert forall|i: int| 0 <= i < p1.len() implies writable(#[trigger] p1[i]) && !same_cell(p1[i], v.ddeque()) && !same_cell(p1[i], e) by {
            assert(p1[i] == p[i + 1]);
            assert(writable(p[i + 1]));
        }
        assert forall|i: int, j: int| 0 <= i < p1.len() && 0 <= j < s.len() implies !same_cell(#[trigger] p1[i], #[trigger] s[j]) by {
            assert(p1[i] == p[i + 1]);
        }
        lemma_event_enqueue_frame(v, s, e, p1);
        let v1 = v.event_enqueue_step(e).1;
        let s1 = s.push(e);
        // the rest of the chain is untouched
        if p1.len() > 0 {
            assert(next == p1[0]);
            assert forall|i: int| 0 <= i < p1.len() - 1 implies (#[trigger] v1.cell(p1[i])).z == p1[i + 1] by {
                assert(p[i + 1 + 1] == p1[i + 1]);
                assert(v.cell(p[i + 1]).z == p[i + 2]);
            }
            assert(v1.cell(p1[p1.len() - 1]) == v.cell(p[p.len() - 1]));
            assert forall|i: int| 0 <= i < p1.len() implies writable(#[trigger] p1[i]) && !same_cell(p1[i], v1.ddeque()) by {}
            assert(v1.event_chain(next, p1));
        } else {
            assert(!spec_is_ram(next));
            assert(v1.event_chain(next, p1));
        }
        assert forall|i: int, j: int| 0 <= i < s1.len() && 0 <= j < p1.len() implies !same_cell(#[trigger] s1[i], #[trigger] p1[j]) by {
            assert(p1[j] == p[j + 1]);
            if i < s.len() {
                assert(s1[i] == s[i]);
            } else {
                assert(!same_cell(p[0], p[j + 1]));
            }
        }
        law_commit_moves_sent_events(v1, s1, p1, next, (fuel - 1) as nat);
        assert(s1 + p1 =~= s + p);
    }
}

/// Moving the sent events writes only the event cells and the queue
/// descriptor: any other cell stays.
pub proof fn lemma_commit_loop_frame(v: CoreView, s: Seq<Any>, p: Seq<Any>, ep: Any, fuel: nat, b: Any)
    requires
        v.wf(),
        v.event_queue(s),
        v.event_chain(ep, p),
        p.len() < fuel,
        forall|i: int, j: int| 0 <= i < s.len() && 0 <= j < p.len() ==> !same_cell(#[trigger] s[i], #[trigger] p[j]),
        writable(b),
        !same_cell(b, v.ddeque()),
        forall|i: int| 0 <= i < s.len() ==> !same_cell(b, #[trigger] s[i]),
        forall|i: int| 0 <= i < p.len() ==> !same_cell(b, #[trigger] p[i]),
    ensures
        v.commit_loop(ep, fuel).1.cell(b) == v.cell(b),
        v.commit_loop(ep, fuel).1.ddeque() == v.ddeque(),
    decreases fuel,
{
    if p.len() > 0 {
        let e = p[0];
        let p1 = p.drop_first();
        let next = v.cell(e).z;
        assert(writable(e) && !same_cell(e, v.ddeque()));
        assert forall|i: int| 0 <= i < s.len() implies !same_cell(e, #[trigger] s[i]) by {
            assert(!same_cell(s[i], p[0]));
        }
        law_event_enqueue_appends(v, s, e);
        let u = p1.push(b);
        assert forall|i: int| 0 <= i < u.len() implies writable(#[trigger] u[i]) && !same_cell(u[i], v.ddeque()) && !same_cell(u[i], e) by {
            if i < p1.len() {
                assert(u[i] == p[i + 1]);
                assert(writable(p[i + 1]));
            } else {
                assert(u[i] == b);
            }
        }
        assert forall|i: int, j: int| 0 <= i < u.len() && 0 <= j < s.len() implies !same_cell(#[trigger] u[i], #[trigger] s[j]) by {
            if i < p1.len() {
                assert(u[i] == p[i + 1]);
            }
        }
        lemma_event_enqueue_frame(v, s, e, u);
        let v1 = v.event_enqueue_step(e).1;
        let s1 = s.push(e);
        assert(v1.cell(b) == v.cell(b)) by {
            assert(u[p1.len() as int] == b);
        }
        assert forall|i: int| 0 <= i < p1.len() implies #[trigger] v1.cell(p1[i]) == v.cell(p1[i]) by {
            assert(u[i] == p1[i]);
        }
        if p1.len() > 0 {
            assert(next == p1[0]);
            assert forall|i: int| 0 <= i < p1.len() - 1 implies (#[trigger] v1.cell(p1[i])).z == p1[i + 1] by {
                assert(p[i + 1 + 1] == p1[i + 1]);
                assert(v.cell(p[i + 1]).z == p[i + 2]);
            }
            assert(v1.cell(p1[p1.len() - 1]) == v.cell(p[p.len() - 1]));
            assert forall|i: int| 0 <= i < p1.len() implies writable(#[trigger] p1[i]) && !same_cell(p1[i], v1.ddeque()) by {}
            assert(v1.event_chain(next, p1));
        } else {
            assert(!spec_is_ram(next));
            assert(v1.event_chain(next, p1));
        }
        assert forall|i: int, j: int| 0 <= i < s1.len() && 0 <= j < p1.len() implies !same_cell(#[trigger] s1[i], #[trigger] p1[j]) by {
            assert(p1[j] == p[j + 1]);
            if i < s.len() {
                assert(s1[i] == s[i]);
            } else {
                assert(!same_cell(p[0], p[j + 1]));
            }
        }
        assert forall|i: int| 0 <= i < s1.len() implies !same_cell(b, #[trigger] s1[i]) by {
            if i == s.len() {
                assert(!same_cell(b, p[0]));
            }
        }
        assert forall|i: int| 0 <= i < p1.len() implies !same_cell(b, #[trigger] p1[i]) by {
            assert(p1[i] == p[i + 1]);
        }
        lemma_commit_loop_frame(v1, s1, p1, next, (fuel - 1) as nat, b);
    }
}

} // verus!
