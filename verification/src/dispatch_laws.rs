//! What dispatching an event to an idle actor does to the queues (the event
//! leaves the front of the event queue, a new continuation joins the back of
//! the continuation queue, the actor becomes busy, and a snapshot of it is
//! kept for rollback); when a dispatch is refused; what executing an
//! instruction does (a continuation that goes on moves to the back of the
//! queue); what reverting a dispatch and committing a transaction do.
use vstd::prelude::*;
use crate::value::{Any, Error, PAIR_T, spec_is_ram, spec_is_fix, spec_is_cap, spec_is_ptr, spec_ofs, spec_fix, clear_opq, FREE_T, NIL, UNDEF, INSTR_T, ACTOR_T, E_MSG_LIM, E_BOUNDS, E_CPU_LIM};
use crate::quad::{Quad, mk, valid, valid_quad, QUAD_RAM_MAX};
use crate::cpu::{CoreView, same_cell, writable, readable};
use crate::interp::{Dispatch, DEVICE_MAX};

verus! {

/// Is `a` none of the cells `u`?
pub open spec fn apart(a: Any, u: Seq<Any>) -> bool {
    forall|i: int| 0 <= i < u.len() ==> !same_cell(a, #[trigger] u[i])
}

/// Do two sequences of cells share no cell?
pub open spec fn disjoint(u: Seq<Any>, w: Seq<Any>) -> bool {
    forall|i: int, j: int| 0 <= i < u.len() && 0 <= j < w.len() ==> !same_cell(#[trigger] u[i], #[trigger] w[j])
}

impl CoreView {
    /// Do the cells `u` lie below the top of the heap, past the memory
    /// descriptor?
    pub open spec fn all_in_heap(self, u: Seq<Any>) -> bool {
        forall|i: int| 0 <= i < u.len() ==> self.in_heap(#[trigger] u[i]) && spec_ofs(u[i]) != 0
    }
}

/// The event queue is the same in a memory that keeps its cells and the
/// event fields of the queue descriptor.
pub proof fn lemma_event_queue_kept(v: CoreView, w: CoreView, s: Seq<Any>)
    requires
        v.event_queue(s),
        w.ddeque() == v.ddeque(),
        w.dq_cell().t == v.dq_cell().t,
        w.dq_cell().x == v.dq_cell().x,
        forall|i: int| 0 <= i < s.len() ==> #[trigger] w.cell(s[i]) == v.cell(s[i]),
    ensures
        w.event_queue(s),
{
    if s.len() > 0 {
        assert(w.cell(s[s.len() - 1]) == v.cell(s[s.len() - 1]));
    }
}

/// The continuation queue is the same in a memory that keeps its cells and
/// the continuation fields of the queue descriptor.
proof fn lemma_cont_queue_kept(v: CoreView, w: CoreView, t: Seq<Any>)
    requires
        v.cont_queue(t),
        w.ddeque() == v.ddeque(),
        w.dq_cell().y == v.dq_cell().y,
        w.dq_cell().z == v.dq_cell().z,
        forall|i: int| 0 <= i < t.len() ==> (#[trigger] w.cell(t[i])).z == v.cell(t[i]).z,
    ensures
        w.cont_queue(t),
{
    if t.len() > 0 {
        assert(w.cell(t[t.len() - 1]).z == v.cell(t[t.len() - 1]).z);
    }
}

/// Reserving the cell at the top of the heap (the free list being empty):
/// the cell holds `init`, the top moves up by one, and every other cell but
/// the memory descriptor is kept.
proof fn lemma_top_reserve(v: CoreView, init: Quad)
    requires
        v.wf(),
        valid_quad(init),
        !v.free_path(),
        writable(v.ram_top()),
        spec_ofs(v.ram_top()) + 1 < QUAD_RAM_MAX,
        v.in_heap(v.ddeque()),
    ensures
        ({
            let p = v.ram_top();
            let w = v.reserve_state(init);
            &&& v.reserve_step(init) == (Ok::<Any, Error>(p), w)
            &&& w.wf()
            &&& w.ddeque() == v.ddeque()
            &&& w.cell(p) == init
            &&& forall|b: Any| readable(b) && !same_cell(b, p) && !same_cell(b, v.memory())
                ==> #[trigger] w.cell(b) == v.cell(b)
            &&& init.t != FREE_T ==> !w.free_path()
            &&& writable(w.ram_top())
            &&& spec_ofs(w.ram_top()) == spec_ofs(p) + 1
            &&& forall|b: Any| v.in_heap(b) ==> #[trigger] w.in_heap(b)
            &&& w.in_heap(p)
            &&& w.in_heap(w.ddeque())
            &&& w.memory() == v.memory()
            &&& w.ram_free() == v.ram_free()
        }),
{
    let p = v.ram_top();
    let m = v.memory();
    crate::value::lemma_ram_ptr(v.phase(), 0);
    crate::value::lemma_ram_ptr(v.phase(), 1);
    assert(spec_ofs(p) != 0);
    v.lemma_reserve_cell(init);
    let w = v.reserve_state(init);
    let np = crate::value::spec_ram_ptr(v.phase(), (spec_ofs(p) + 1) as usize);
    crate::value::lemma_ram_ptr(v.phase(), (spec_ofs(p) + 1) as usize);
    let q = Quad { t: np, ..v.mem_cell() };
    let v1 = v.set_memory(q);
    assert(w == v1.set_cell(p, init));
    v.lemma_set_cell_same(m, q, m);
    v1.lemma_set_cell_other(p, init, m);
    assert(w.memory() == m);
    assert(w.mem_cell() == q);
    assert(w.ram_top() == np);
    let nx = v.ram_next();
    if init.t != FREE_T {
        assert(!w.free_path()) by {
            if w.typeq(FREE_T, nx) {
                crate::lists::lemma_cell_fields_valid(v, m);
                if same_cell(nx, p) {
                    assert(w.cell(nx) == w.cell(p));
                } else if same_cell(nx, m) {
                    assert(w.cell(nx) == w.cell(m));
                } else {
                    assert(w.cell(nx) == v.cell(nx));
                }
            }
        }
    }
}

impl CoreView {
    /// The sponsor of the event at the front of the event queue.
    pub open spec fn front_sponsor(self) -> Any {
        self.cell(self.e_first()).t
    }

    /// The actor the event at the front of the event queue is addressed to,
    /// as a pointer.
    pub open spec fn front_actor(self) -> Any {
        clear_opq(self.cell(self.e_first()).x)
    }
}

/// The two reservations of a dispatch, from the top of the heap: the
/// rollback snapshot, then the continuation. Both are new cells; every cell
/// below the old top, and both queues, stay.
proof fn lemma_dispatch_reserves(v: CoreView, s: Seq<Any>, t: Seq<Any>, u: Seq<Any>, actor: Quad, kq: Quad)
    requires
        v.wf(),
        v.event_queue(s),
        v.cont_queue(t),
        valid_quad(actor),
        valid_quad(kq),
        actor.t != FREE_T,
        !v.free_path(),
        writable(v.ram_top()),
        spec_ofs(v.ram_top()) + 2 < QUAD_RAM_MAX,
        v.in_heap(v.ddeque()),
        v.all_in_heap(s),
        v.all_in_heap(t),
        v.all_in_heap(u),
        forall|i: int| 0 <= i < u.len() ==> writable(#[trigger] u[i]),
    ensures
        ({
            let p0 = v.ram_top();
            let v1 = v.reserve_state(actor);
            let k = v1.ram_top();
            let v2 = v1.reserve_state(kq);
            &&& v.reserve_step(actor) == (Ok::<Any, Error>(p0), v1)
            &&& v1.reserve_step(kq) == (Ok::<Any, Error>(k), v2)
            &&& v2.wf()
            &&& v2.ddeque() == v.ddeque()
            &&& v2.event_queue(s)
            &&& v2.cont_queue(t)
            &&& forall|i: int| 0 <= i < u.len() ==> #[trigger] v2.cell(u[i]) == v.cell(u[i])
            &&& forall|i: int| 0 <= i < s.len() ==> #[trigger] v2.cell(s[i]) == v.cell(s[i])
            &&& v2.cell(p0) == actor
            &&& v2.cell(k) == kq
            &&& writable(p0) && writable(k)
            &&& spec_ofs(p0) > 1 && spec_ofs(k) == spec_ofs(p0) + 1
            &&& forall|b: Any| v.in_heap(b) ==> !same_cell(b, p0) && !same_cell(b, k)
            &&& !same_cell(p0, k)
            &&& v2.memory() == v.memory()
            &&& v2.ram_free() == v.ram_free()
            &&& v2.in_heap(p0) && v2.in_heap(k)
            &&& forall|b: Any| v.in_heap(b) ==> #[trigger] v2.in_heap(b)
        }),
{
    let p0 = v.ram_top();
    let dq = v.ddeque();
    let m = v.memory();
    crate::value::lemma_ram_ptr(v.phase(), 0);
    crate::value::lemma_ram_ptr(v.phase(), 1);
    lemma_top_reserve(v, actor);
    let v1 = v.reserve_state(actor);
    let k = v1.ram_top();
    lemma_top_reserve(v1, kq);
    let v2 = v1.reserve_state(kq);
    assert(v1.memory() == m) by {
        assert(v1.ddeque() == dq);
    }
    assert forall|b: Any| readable(b) && v.in_heap(b) && spec_ofs(b) != 0 implies #[trigger] v2.cell(b) == v.cell(b) by {
        assert(!same_cell(b, p0));
        assert(!same_cell(b, m));
        assert(v1.cell(b) == v.cell(b));
        assert(!same_cell(b, k));
    }
    assert(v2.cell(p0) == actor) by {
        assert(readable(p0));
        assert(!same_cell(p0, k));
        assert(!same_cell(p0, m));
    }
    assert(v2.cell(dq) == v.cell(dq));
    assert forall|i: int| 0 <= i < s.len() implies #[trigger] v2.cell(s[i]) == v.cell(s[i]) by {
        assert(v.in_heap(s[i]) && spec_ofs(s[i]) != 0);
    }
    assert forall|i: int| 0 <= i < t.len() implies #[trigger] v2.cell(t[i]) == v.cell(t[i]) by {
        assert(v.in_heap(t[i]) && spec_ofs(t[i]) != 0);
    }
    assert forall|i: int| 0 <= i < u.len() implies #[trigger] v2.cell(u[i]) == v.cell(u[i]) by {
        assert(v.in_heap(u[i]) && spec_ofs(u[i]) != 0);
    }
    crate::dispatch_laws::lemma_event_queue_kept(v, v2, s);
    crate::dispatch_laws::lemma_cont_queue_kept(v, v2, t);
}

/// Marking the actor busy and adding the new continuation to the back of
/// the continuation queue.
proof fn lemma_dispatch_link_enqueue(v2: CoreView, s: Seq<Any>, t: Seq<Any>, a: Any, sp: Any, p0: Any, k: Any)
    requires
        v2.wf(),
        v2.event_queue(s),
        v2.cont_queue(t),
        writable(a),
        writable(sp),
        writable(p0),
        writable(k),
        disjoint(s, t),
        apart(a, s),
        apart(a, t),
        apart(sp, s),
        apart(sp, t),
        apart(p0, s),
        apart(p0, t),
        apart(k, s),
        apart(k, t),
        !same_cell(a, sp),
        !same_cell(a, p0),
        !same_cell(a, k),
        !same_cell(sp, p0),
        !same_cell(sp, k),
        !same_cell(p0, k),
        !same_cell(a, v2.ddeque()),
        !same_cell(sp, v2.ddeque()),
        !same_cell(p0, v2.ddeque()),
        !same_cell(k, v2.ddeque()),
        spec_ofs(a) != 0,
        spec_ofs(sp) != 0,
        spec_ofs(p0) != 0,
        spec_ofs(k) != 0,
        forall|j: int| 0 <= j < t.len() ==> spec_ofs(#[trigger] t[j]) != 0,
    ensures
        ({
            let v2a = v2.set_link(a, NIL);
            let (r3, v3) = v2a.cont_enqueue_step(k);
            &&& r3 == Ok::<(), Error>(())
            &&& v3.wf()
            &&& v3.ddeque() == v2.ddeque()
            &&& v3.cont_queue(t.push(k))
            &&& v3.event_queue(s)
            &&& v3.cell(a) == (Quad { z: NIL, ..v2.cell(a) })
            &&& v3.cell(sp) == v2.cell(sp)
            &&& v3.cell(p0) == v2.cell(p0)
            &&& v3.cell(k) == (Quad { z: NIL, ..v2.cell(k) })
            &&& forall|i: int| 0 <= i < s.len() ==> #[trigger] v3.cell(s[i]) == v2.cell(s[i])
            &&& v3.memory() == v2.memory()
            &&& v3.mem_cell() == v2.mem_cell()
        }),
{
    let dq = v2.ddeque();
    let m = v2.memory();
    crate::value::lemma_ram_ptr(v2.phase(), 0);
    crate::value::lemma_ram_ptr(v2.phase(), 1);
    v2.lemma_descriptor();
    let qa = Quad { z: NIL, ..v2.cell(a) };
    v2.lemma_link_valid(a, NIL);
    assert forall|i: int| 0 <= i < s.len() implies writable(#[trigger] s[i]) && !same_cell(a, s[i]) by {
        assert(writable(s[i]));
    }
    assert forall|i: int| 0 <= i < t.len() implies writable(#[trigger] t[i]) && !same_cell(a, t[i]) by {
        assert(writable(t[i]));
    }
    let others = seq![sp, p0, k, dq, m];
    assert forall|i: int| 0 <= i < others.len() implies writable(#[trigger] others[i]) && !same_cell(a, others[i]) by {}
    v2.lemma_cells_kept(a, qa, s);
    v2.lemma_cells_kept(a, qa, t);
    v2.lemma_cells_kept(a, qa, others);
    let v2a = v2.set_link(a, NIL);
    assert(v2a.cell(dq) == v2.cell(dq)) by {
        assert(others[3] == dq);
    }
    lemma_event_queue_kept(v2, v2a, s);
    lemma_cont_queue_kept(v2, v2a, t);
    crate::queue_laws::law_cont_enqueue_appends(v2a, t, k);
    assert forall|i: int| 0 <= i < s.len() implies writable(#[trigger] s[i]) && !same_cell(s[i], v2a.ddeque()) && !same_cell(s[i], k) by {
        assert(writable(s[i]));
    }
    crate::queue_laws::lemma_cont_enqueue_frame(v2a, t, k, s);
    let rest = seq![a, sp, p0, m];
    assert(v2a.ddeque() == dq);
    assert forall|i: int| 0 <= i < rest.len() implies writable(#[trigger] rest[i]) && !same_cell(rest[i], v2a.ddeque()) && !same_cell(rest[i], k) by {}
    assert forall|i: int, j: int| 0 <= i < rest.len() && 0 <= j < t.len() implies !same_cell(#[trigger] rest[i], #[trigger] t[j]) by {}
    crate::queue_laws::lemma_cont_enqueue_frame(v2a, t, k, rest);
    let v3 = v2a.cont_enqueue_step(k).1;
    lemma_event_queue_kept(v2a, v3, s);
    assert(v3.cell(a) == v2a.cell(a)) by {
        assert(rest[0] == a);
    }
    assert(v3.cell(sp) == v2a.cell(sp)) by {
        assert(rest[1] == sp);
    }
    assert(v3.cell(p0) == v2a.cell(p0)) by {
        assert(rest[2] == p0);
    }
    assert(v2a.cell(sp) == v2.cell(sp)) by {
        assert(others[0] == sp);
    }
    assert(v2a.cell(p0) == v2.cell(p0)) by {
        assert(others[1] == p0);
    }
    assert(v2a.cell(k) == v2.cell(k)) by {
        assert(others[2] == k);
    }
    assert(v3.cell(m) == v2.cell(m)) by {
        assert(others[4] == m);
        assert(rest[3] == m);
    }
    assert(v3.memory() == m);
}

/// Taking the event off the event queue, keeping the rollback snapshot in
/// it, and charging its sponsor one event.
proof fn lemma_dispatch_finish(v3: CoreView, s: Seq<Any>, t: Seq<Any>, a: Any, sp: Any, p0: Any)
    requires
        v3.wf(),
        v3.event_queue(s),
        s.len() > 0,
        v3.cont_queue(t),
        writable(a),
        writable(sp),
        writable(p0),
        spec_ofs(sp) != 0,
        disjoint(s, t),
        apart(a, s),
        apart(sp, s),
        apart(sp, t),
        apart(p0, s),
        !same_cell(a, sp),
        !same_cell(a, v3.ddeque()),
        !same_cell(sp, v3.ddeque()),
        !same_cell(p0, v3.ddeque()),
        !same_cell(sp, p0),
        forall|j: int| 0 <= j < t.len() ==> writable(#[trigger] t[j]),
        0 < v3.quota_of(v3.cell(sp).x),
        spec_ofs(a) != 0,
        spec_ofs(p0) != 0,
        forall|i: int| 0 <= i < s.len() ==> spec_ofs(#[trigger] s[i]) != 0,
    ensures
        ({
            let (r4, v4) = v3.event_dequeue_step();
            let v5 = v4.set_link(s[0], p0);
            let qs = Quad { x: spec_fix(v3.quota_of(v3.cell(sp).x) - 1), ..v3.cell(sp) };
            let w = v5.set_cell(sp, qs);
            &&& r4 == Ok::<Option<Any>, Error>(Some(s[0]))
            &&& v5.cell(sp) == v3.cell(sp)
            &&& w.event_queue(s.drop_first())
            &&& w.cont_queue(t)
            &&& w.cell(a) == v3.cell(a)
            &&& w.cell(p0) == v3.cell(p0)
            &&& w.cell(s[0]) == (Quad { z: p0, ..v3.cell(s[0]) })
            &&& w.cell(sp) == qs
            &&& forall|j: int| 0 <= j < t.len() ==> #[trigger] w.cell(t[j]) == v3.cell(t[j])
            &&& w.wf()
            &&& w.memory() == v3.memory()
            &&& w.mem_cell() == v3.mem_cell()
        }),
{
    let dq = v3.ddeque();
    let m = v3.memory();
    crate::value::lemma_ram_ptr(v3.phase(), 0);
    crate::value::lemma_ram_ptr(v3.phase(), 1);
    let ep = s[0];
    let s1 = s.drop_first();
    crate::queue_laws::law_event_dequeue_takes_first(v3, s);
    let others = seq![a, sp, p0, m];
    assert forall|i: int| 0 <= i < others.len() implies writable(#[trigger] others[i]) && !same_cell(others[i], dq) by {}
    assert forall|j: int| 0 <= j < t.len() implies writable(#[trigger] t[j]) && !same_cell(t[j], dq) by {}
    crate::queue_laws::lemma_event_dequeue_frame(v3, s, others);
    crate::queue_laws::lemma_event_dequeue_frame(v3, s, t);
    crate::queue_laws::lemma_event_dequeue_frame(v3, s, seq![ep]);
    let v4 = v3.event_dequeue_step().1;
    lemma_cont_queue_kept(v3, v4, t);
    assert(v4.cell(a) == v3.cell(a) && v4.cell(sp) == v3.cell(sp) && v4.cell(p0) == v3.cell(p0) && v4.cell(m) == v3.cell(m)) by {
        assert(others[0] == a && others[1] == sp && others[2] == p0 && others[3] == m);
    }
    assert(v4.cell(ep) == v3.cell(ep)) by {
        assert(seq![ep][0] == ep);
    }
    // the snapshot goes into the event
    assert(writable(ep));
    let qe = Quad { z: p0, ..v4.cell(ep) };
    v4.lemma_link_valid(ep, p0);
    v4.lemma_descriptor();
    assert forall|i: int| 0 <= i < s1.len() implies writable(#[trigger] s1[i]) && !same_cell(ep, s1[i]) by {
        assert(s1[i] == s[i + 1]);
        assert(writable(s[i + 1]));
    }
    assert forall|j: int| 0 <= j < t.len() implies writable(#[trigger] t[j]) && !same_cell(ep, t[j]) by {}
    assert(spec_ofs(ep) != 0);
    let rest = seq![a, sp, p0, dq, m];
    assert forall|i: int| 0 <= i < rest.len() implies writable(#[trigger] rest[i]) && !same_cell(ep, rest[i]) by {}
    v4.lemma_cells_kept(ep, qe, s1);
    v4.lemma_cells_kept(ep, qe, t);
    v4.lemma_cells_kept(ep, qe, rest);
    let v5 = v4.set_link(ep, p0);
    assert(v5.cell(dq) == v4.cell(dq) && v5.cell(a) == v4.cell(a) && v5.cell(sp) == v4.cell(sp) && v5.cell(p0) == v4.cell(p0) && v5.cell(m) == v4.cell(m)) by {
        assert(rest[0] == a && rest[1] == sp && rest[2] == p0 && rest[3] == dq && rest[4] == m);
    }
    lemma_event_queue_kept(v4, v5, s1);
    lemma_cont_queue_kept(v4, v5, t);
    // the sponsor is charged
    let n = v3.quota_of(v3.cell(sp).x);
    let qs = Quad { x: spec_fix(n - 1), ..v3.cell(sp) };
    assert(crate::quad::valid(spec_fix(n - 1))) by {
        crate::value::lemma_fix_roundtrip(n - 1);
    }
    assert(crate::cpu::valid_at(sp, qs)) by {
        crate::lists::lemma_cell_fields_valid(v3, sp);
    }
    let rest2 = seq![a, p0, ep, dq, m];
    assert forall|i: int| 0 <= i < rest2.len() implies writable(#[trigger] rest2[i]) && !same_cell(sp, rest2[i]) by {}
    v5.lemma_cells_kept(sp, qs, s1);
    v5.lemma_cells_kept(sp, qs, t);
    v5.lemma_cells_kept(sp, qs, rest2);
    let w = v5.set_cell(sp, qs);
    assert(w.cell(dq) == v5.cell(dq) && w.cell(a) == v5.cell(a) && w.cell(p0) == v5.cell(p0) && w.cell(ep) == v5.cell(ep) && w.cell(m) == v5.cell(m)) by {
        assert(rest2[0] == a && rest2[1] == p0 && rest2[2] == ep && rest2[3] == dq && rest2[4] == m);
    }
    assert(w.memory() == m);
    lemma_event_queue_kept(v5, w, s1);
    lemma_cont_queue_kept(v5, w, t);
}

/// The steps a dispatch to an idle actor takes, when each of them succeeds.
proof fn lemma_dispatch_unfold(v: CoreView)
    requires
        v.dispatch_ready(),
        writable(v.e_first()),
        !spec_is_fix(v.front_target().x),
        v.front_target().z == UNDEF,
        valid_quad(v.front_target()),
        writable(v.front_actor()),
        writable(v.front_sponsor()),
        ({
            let ep = v.e_first();
            let actor = v.front_target();
            let kq = mk(actor.x, actor.y, ep, NIL);
            let v1 = v.reserve_state(actor);
            let v2 = v1.reserve_state(kq);
            let v3 = v2.set_link(v.front_actor(), NIL).cont_enqueue_step(v1.ram_top()).1;
            &&& v.reserve_step(actor) == (Ok::<Any, Error>(v.ram_top()), v1)
            &&& v1.reserve_step(kq) == (Ok::<Any, Error>(v1.ram_top()), v2)
            &&& v2.set_link(v.front_actor(), NIL).cont_enqueue_step(v1.ram_top()).0 == Ok::<(), Error>(())
            &&& v3.event_dequeue_step().0 == Ok::<Option<Any>, Error>(Some(ep))
        }),
    ensures
        ({
            let ep = v.e_first();
            let actor = v.front_target();
            let kq = mk(actor.x, actor.y, ep, NIL);
            let v1 = v.reserve_state(actor);
            let v2 = v1.reserve_state(kq);
            let v3 = v2.set_link(v.front_actor(), NIL).cont_enqueue_step(v1.ram_top()).1;
            let v5 = v3.event_dequeue_step().1.set_link(ep, v.ram_top());
            let sp = v.front_sponsor();
            v.dispatch_step() == (
                Ok::<Dispatch, Error>(Dispatch::Started),
                v5.set_cell(sp, Quad { x: spec_fix(v.quota_of(v.cell(sp).x) - 1), ..v5.cell(sp) }),
            )
        }),
{
}

/// The two reservations of a dispatch to an idle actor.
#[verifier::spinoff_prover]
#[verifier::rlimit(80)]
proof fn lemma_dispatch_reserve_both(v: CoreView, s: Seq<Any>, t: Seq<Any>)
    requires
        v.wf(),
        v.event_queue(s),
        s.len() > 0,
        v.cont_queue(t),
        v.dispatch_ready(),
        !spec_is_fix(v.front_target().x),
        v.front_target().z == UNDEF,
        valid_quad(v.front_target()),
        writable(v.front_actor()),
        writable(v.front_sponsor()),
        !v.free_path(),
        writable(v.ram_top()),
        spec_ofs(v.ram_top()) + 2 < QUAD_RAM_MAX,
        v.in_heap(v.ddeque()),
        v.all_in_heap(s),
        v.all_in_heap(t),
        v.all_in_heap(seq![v.front_actor(), v.front_sponsor()]),
        disjoint(s, t),
        apart(v.front_actor(), s),
        apart(v.front_actor(), t),
        apart(v.front_sponsor(), s),
        apart(v.front_sponsor(), t),
        !same_cell(v.front_actor(), v.front_sponsor()),
        !same_cell(v.front_actor(), v.ddeque()),
        !same_cell(v.front_sponsor(), v.ddeque()),
    ensures
        ({
            let ep = s[0];
            let event = v.cell(ep);
            let a = v.front_actor();
            let actor = v.front_target();
            let sp = v.front_sponsor();
            let rb = v.ram_top();
            let dq = v.ddeque();
            let kq = mk(actor.x, actor.y, ep, NIL);
            let v1 = v.reserve_state(actor);
            let k = v1.ram_top();
            let v2 = v1.reserve_state(kq);
            &&& v.e_first() == ep
            &&& writable(ep)
            &&& v.reserve_step(actor) == (Ok::<Any, Error>(rb), v1)
            &&& v1.reserve_step(kq) == (Ok::<Any, Error>(k), v2)
            &&& v2.wf()
            &&& v2.ddeque() == dq
            &&& v2.event_queue(s)
            &&& v2.cont_queue(t)
            &&& v2.cell(a) == actor
            &&& v2.cell(sp) == v.cell(sp)
            &&& v2.cell(ep) == event
            &&& v2.cell(rb) == actor
            &&& v2.cell(k) == kq
            &&& writable(rb) && writable(k)
            &&& apart(rb, s) && apart(rb, t) && apart(k, s) && apart(k, t)
            &&& !same_cell(a, rb) && !same_cell(a, k) && !same_cell(sp, rb) && !same_cell(sp, k)
            &&& !same_cell(rb, k) && !same_cell(rb, dq) && !same_cell(k, dq)
            &&& v2.memory() == v.memory() && v2.ram_free() == v.ram_free()
            &&& v2.in_heap(rb) && v2.in_heap(k)
            &&& forall|b: Any| v.in_heap(b) ==> #[trigger] v2.in_heap(b)
        }),
{
    let ep = s[0];
    let event = v.cell(ep);
    let a = v.front_actor();
    let actor = v.cell(a);
    let sp = v.front_sponsor();
    let dq = v.ddeque();
    let p0 = v.ram_top();
    let u = seq![a, sp];
    assert(u[0] == a && u[1] == sp);
    assert(v.in_heap(a) && spec_ofs(a) != 0 && v.in_heap(sp) && spec_ofs(sp) != 0);
    assert(writable(ep)) by {
        assert(writable(s[0]));
    }
    crate::lists::lemma_cell_fields_valid(v, ep);
    let kq = mk(actor.x, actor.y, ep, NIL);
    assert forall|i: int| 0 <= i < u.len() implies writable(#[trigger] u[i]) by {}
    lemma_dispatch_reserves(v, s, t, u, actor, kq);
    let v1 = v.reserve_state(actor);
    let k = v1.ram_top();
    let v2 = v1.reserve_state(kq);
    assert(v2.cell(a) == actor && v2.cell(sp) == v.cell(sp));
    assert(v2.cell(ep) == event);
    crate::value::lemma_ram_ptr(v.phase(), 1);
    assert forall|i: int| 0 <= i < s.len() implies !same_cell(p0, #[trigger] s[i]) && !same_cell(k, s[i]) by {
        assert(v.in_heap(s[i]));
    }
    assert forall|j: int| 0 <= j < t.len() implies !same_cell(p0, #[trigger] t[j]) && !same_cell(k, t[j]) by {
        assert(v.in_heap(t[j]));
    }
    assert(!same_cell(p0, dq) && !same_cell(k, dq));
    assert(!same_cell(a, p0) && !same_cell(a, k) && !same_cell(sp, p0) && !same_cell(sp, k));
}

/// The first steps of a dispatch to an idle actor: the two reservations,
/// marking the actor busy, and queueing the new continuation.
#[verifier::spinoff_prover]
#[verifier::rlimit(80)]
proof fn lemma_dispatch_first_half(v: CoreView, s: Seq<Any>, t: Seq<Any>)
    requires
        v.wf(),
        v.event_queue(s),
        s.len() > 0,
        v.cont_queue(t),
        v.dispatch_ready(),
        !spec_is_fix(v.front_target().x),
        v.front_target().z == UNDEF,
        valid_quad(v.front_target()),
        writable(v.front_actor()),
        writable(v.front_sponsor()),
        !v.free_path(),
        writable(v.ram_top()),
        spec_ofs(v.ram_top()) + 2 < QUAD_RAM_MAX,
        v.in_heap(v.ddeque()),
        v.all_in_heap(s),
        v.all_in_heap(t),
        v.all_in_heap(seq![v.front_actor(), v.front_sponsor()]),
        disjoint(s, t),
        apart(v.front_actor(), s),
        apart(v.front_actor(), t),
        apart(v.front_sponsor(), s),
        apart(v.front_sponsor(), t),
        !same_cell(v.front_actor(), v.front_sponsor()),
        !same_cell(v.front_actor(), v.ddeque()),
        !same_cell(v.front_sponsor(), v.ddeque()),
    ensures
        ({
            let ep = s[0];
            let event = v.cell(ep);
            let a = v.front_actor();
            let actor = v.front_target();
            let sp = v.front_sponsor();
            let rb = v.ram_top();
            let kq = mk(actor.x, actor.y, ep, NIL);
            let v1 = v.reserve_state(actor);
            let k = v1.ram_top();
            let v2 = v1.reserve_state(kq);
            let v3 = v2.set_link(a, NIL).cont_enqueue_step(k).1;
            let t1 = t.push(k);
            &&& v.e_first() == ep
            &&& writable(ep)
            &&& v.reserve_step(actor) == (Ok::<Any, Error>(rb), v1)
            &&& v1.reserve_step(kq) == (Ok::<Any, Error>(k), v2)
            &&& v2.set_link(a, NIL).cont_enqueue_step(k).0 == Ok::<(), Error>(())
            &&& v3.wf()
            &&& v3.ddeque() == v.ddeque()
            &&& v3.event_queue(s)
            &&& v3.cont_queue(t1)
            &&& v3.cell(a) == (Quad { z: NIL, ..actor })
            &&& v3.cell(sp) == v.cell(sp)
            &&& v3.cell(rb) == actor
            &&& v3.cell(k) == kq
            &&& v3.cell(ep) == event
            &&& writable(rb)
            &&& !same_cell(rb, v.ddeque())
            &&& !same_cell(sp, rb)
            &&& apart(rb, s)
            &&& disjoint(s, t1)
            &&& apart(sp, t1)
            &&& forall|j: int| 0 <= j < t1.len() ==> writable(#[trigger] t1[j])
            &&& t1[t.len() as int] == k
            &&& v3.memory() == v.memory() && v3.ram_free() == v.ram_free()
            &&& v3.in_heap(rb) && v3.in_heap(k)
            &&& forall|b: Any| v.in_heap(b) ==> #[trigger] v3.in_heap(b)
        }),
{
    lemma_dispatch_reserve_both(v, s, t);
    let ep = s[0];
    let event = v.cell(ep);
    let a = v.front_actor();
    let actor = v.front_target();
    let sp = v.front_sponsor();
    let p0 = v.ram_top();
    let kq = mk(actor.x, actor.y, ep, NIL);
    let v1 = v.reserve_state(actor);
    let k = v1.ram_top();
    let v2 = v1.reserve_state(kq);
    lemma_dispatch_link_enqueue(v2, s, t, a, sp, p0, k);
    let v2a = v2.set_link(a, NIL);
    let v3 = v2a.cont_enqueue_step(k).1;
    assert(v3.cell(sp) == v.cell(sp));
    assert(v3.cell(ep) == event) by {
        assert(v3.cell(s[0]) == v2.cell(s[0]));
    }
    let t1 = t.push(k);
    assert forall|i: int, j: int| 0 <= i < s.len() && 0 <= j < t1.len() implies !same_cell(#[trigger] s[i], #[trigger] t1[j]) by {
        if j < t.len() {
            assert(t1[j] == t[j]);
        }
    }
    assert forall|j: int| 0 <= j < t1.len() implies !same_cell(sp, #[trigger] t1[j]) by {
        if j < t.len() {
            assert(t1[j] == t[j]);
        }
    }
    assert forall|j: int| 0 <= j < t1.len() implies writable(#[trigger] t1[j]) by {
        if j < t.len() {
            assert(t1[j] == t[j]);
            assert(writable(t[j]));
        }
    }
}

/// The last steps of a dispatch to an idle actor: taking the event off
/// its queue, keeping the snapshot in it, and charging its sponsor.
#[verifier::spinoff_prover]
#[verifier::rlimit(80)]
proof fn lemma_dispatch_effects(v: CoreView, s: Seq<Any>, t: Seq<Any>)
    requires
        v.wf(),
        v.event_queue(s),
        s.len() > 0,
        v.cont_queue(t),
        v.dispatch_ready(),
        !spec_is_fix(v.front_target().x),
        v.front_target().z == UNDEF,
        valid_quad(v.front_target()),
        writable(v.front_actor()),
        writable(v.front_sponsor()),
        !v.free_path(),
        writable(v.ram_top()),
        spec_ofs(v.ram_top()) + 2 < QUAD_RAM_MAX,
        v.in_heap(v.ddeque()),
        v.all_in_heap(s),
        v.all_in_heap(t),
        v.all_in_heap(seq![v.front_actor(), v.front_sponsor()]),
        disjoint(s, t),
        apart(v.front_actor(), s),
        apart(v.front_actor(), t),
        apart(v.front_sponsor(), s),
        apart(v.front_sponsor(), t),
        !same_cell(v.front_actor(), v.front_sponsor()),
        !same_cell(v.front_actor(), v.ddeque()),
        !same_cell(v.front_sponsor(), v.ddeque()),
    ensures
        ({
            let ep = s[0];
            let event = v.cell(ep);
            let a = v.front_actor();
            let actor = v.front_target();
            let sp = v.front_sponsor();
            let rb = v.ram_top();
            let kq = mk(actor.x, actor.y, ep, NIL);
            let v1 = v.reserve_state(actor);
            let k = v1.ram_top();
            let v2 = v1.reserve_state(kq);
            let v3 = v2.set_link(a, NIL).cont_enqueue_step(k).1;
            let v5 = v3.event_dequeue_step().1.set_link(ep, rb);
            let w = v5.set_cell(sp, Quad { x: spec_fix(v.quota_of(v.cell(sp).x) - 1), ..v5.cell(sp) });
            &&& v.e_first() == ep
            &&& writable(ep)
            &&& v.reserve_step(actor) == (Ok::<Any, Error>(rb), v1)
            &&& v1.reserve_step(kq) == (Ok::<Any, Error>(k), v2)
            &&& v2.set_link(a, NIL).cont_enqueue_step(k).0 == Ok::<(), Error>(())
            &&& v3.event_dequeue_step().0 == Ok::<Option<Any>, Error>(Some(ep))
            &&& v5.cell(sp) == v.cell(sp)
            &&& w.event_queue(s.drop_first())
            &&& w.cont_queue(t.push(k))
            &&& w.cell(k) == mk(actor.x, actor.y, ep, NIL)
            &&& w.cell(a) == (Quad { z: NIL, ..actor })
            &&& w.cell(ep) == (Quad { z: rb, ..event })
            &&& w.cell(rb) == actor
            &&& w.cell(sp) == (Quad { x: spec_fix(v.quota_of(v.cell(sp).x) - 1), ..v.cell(sp) })
            &&& w.wf()
            &&& w.memory() == v.memory() && w.ram_free() == v.ram_free()
            &&& w.in_heap(rb) && w.in_heap(k)
            &&& forall|b: Any| v.in_heap(b) ==> #[trigger] w.in_heap(b)
        }),
{
    lemma_dispatch_first_half(v, s, t);
    let ep = s[0];
    let a = v.front_actor();
    let actor = v.front_target();
    let sp = v.front_sponsor();
    let p0 = v.ram_top();
    let kq = mk(actor.x, actor.y, ep, NIL);
    let v1 = v.reserve_state(actor);
    let k = v1.ram_top();
    let v2 = v1.reserve_state(kq);
    let v3 = v2.set_link(a, NIL).cont_enqueue_step(k).1;
    let t1 = t.push(k);
    assert(spec_ofs(sp) != 0) by {
        assert(seq![a, sp][1] == sp);
    }
    lemma_dispatch_finish(v3, s, t1, a, sp, p0);
    assert(v3.event_dequeue_step().1.set_link(ep, p0).set_cell(sp, Quad { x: spec_fix(v.quota_of(v.cell(sp).x) - 1), ..v.cell(sp) }).cell(t1[t.len() as int]) == v3.cell(k));
}

/// Dispatching the event at the front of the event queue to an idle actor
/// (one with no transaction under way): the event leaves the front of the
/// event queue; a new continuation, running the actor's behavior on its
/// state for this event, joins the back of the continuation queue; the
/// actor is marked busy; the event keeps a snapshot of the actor for
/// rollback; and the sponsor is charged one event. Both new cells come from
/// the top of the heap, and the queues, the actor and the sponsor lie below
/// it and share no cell.
#[verifier::spinoff_prover]
pub proof fn law_dispatch_starts_actor(v: CoreView, s: Seq<Any>, t: Seq<Any>)
    requires
        v.wf(),
        v.event_queue(s),
        s.len() > 0,
        v.cont_queue(t),
        v.dispatch_ready(),
        !spec_is_fix(v.front_target().x),
        v.front_target().z == UNDEF,
        valid_quad(v.front_target()),
        writable(v.front_actor()),
        writable(v.front_sponsor()),
        !v.free_path(),
        writable(v.ram_top()),
        spec_ofs(v.ram_top()) + 2 < QUAD_RAM_MAX,
        v.in_heap(v.ddeque()),
        v.all_in_heap(s),
        v.all_in_heap(t),
        v.all_in_heap(seq![v.front_actor(), v.front_sponsor()]),
        disjoint(s, t),
        apart(v.front_actor(), s),
        apart(v.front_actor(), t),
        apart(v.front_sponsor(), s),
        apart(v.front_sponsor(), t),
        !same_cell(v.front_actor(), v.front_sponsor()),
        !same_cell(v.front_actor(), v.ddeque()),
        !same_cell(v.front_sponsor(), v.ddeque()),
    ensures
        ({
            let ep = s[0];
            let event = v.cell(ep);
            let a = v.front_actor();
            let actor = v.cell(a);
            let sp = v.front_sponsor();
            let rb = v.ram_top();
            let k = v.reserve_state(actor).ram_top();
            let (r, w) = v.dispatch_step();
            &&& r == Ok::<Dispatch, Error>(Dispatch::Started)
            &&& w.event_queue(s.drop_first())
            &&& w.cont_queue(t.push(k))
            &&& w.cell(k) == mk(actor.x, actor.y, ep, NIL)
            &&& w.cell(a) == (Quad { z: NIL, ..actor })
            &&& w.cell(ep) == (Quad { z: rb, ..event })
            &&& w.cell(rb) == actor
            &&& w.cell(sp) == (Quad { x: spec_fix(v.quota_of(v.cell(sp).x) - 1), ..v.cell(sp) })
            &&& w.wf()
            &&& w.memory() == v.memory() && w.ram_free() == v.ram_free()
            &&& w.in_heap(rb) && w.in_heap(k)
            &&& forall|b: Any| v.in_heap(b) ==> #[trigger] w.in_heap(b)
        }),
{
    lemma_dispatch_effects(v, s, t);
    lemma_dispatch_unfold(v);
}

/// The steps of executing an instruction that continues at another
/// instruction, when each of them succeeds.
proof fn lemma_execute_unfold(v: CoreView, ip2: Any, v1: CoreView)
    requires
        spec_is_ram(v.kp()),
        !spec_is_cap(v.kp()),
        spec_is_ptr(v.ep()),
        spec_is_ptr(v.cell(v.ep()).t),
        readable(v.cell(v.ep()).t),
        writable(v.cell(v.ep()).t),
        v.quota_of(v.cell(v.cell(v.ep()).t).y) > 0,
        v.perform_step(v.ip()) == (Ok::<Any, Error>(ip2), v1),
        writable(v1.kp()),
        ({
            let sp = v.cell(v.ep()).t;
            let v2 = v1.set_ip_state(ip2);
            let v3 = v2.set_cell(sp, Quad { y: spec_fix(v.quota_of(v.cell(sp).y) - 1), ..v2.cell(sp) });
            &&& v3.cont_dequeue_step().0 == Ok::<Option<Any>, Error>(Some(v.kp()))
            &&& v3.cont_dequeue_step().1.typeq(INSTR_T, ip2)
            &&& v3.cont_dequeue_step().1.cont_enqueue_step(v.kp()).0 == Ok::<(), Error>(())
        }),
    ensures
        ({
            let sp = v.cell(v.ep()).t;
            let v2 = v1.set_ip_state(ip2);
            let v3 = v2.set_cell(sp, Quad { y: spec_fix(v.quota_of(v.cell(sp).y) - 1), ..v2.cell(sp) });
            let v4 = v3.cont_dequeue_step().1;
            v.execute_step() == (Ok::<bool, Error>(true), v4.cont_enqueue_step(v.kp()).1)
        }),
{
}

/// The steps around an instruction that continues: the continuation is
/// pointed at the next instruction, the sponsor charged, and the
/// continuation moved from the front of its queue to the back.
#[verifier::spinoff_prover]
#[verifier::rlimit(60)]
proof fn lemma_execute_effects(v: CoreView, v1: CoreView, t: Seq<Any>, ip2: Any)
    requires
        v.wf(),
        v.cont_queue(t),
        t.len() > 0,
        spec_ofs(t[0]) != 0,
        spec_is_ptr(v.ep()),
        spec_is_ptr(v.cell(v.ep()).t),
        writable(v.cell(v.ep()).t),
        spec_ofs(v.cell(v.ep()).t) != 0,
        v.quota_of(v.cell(v.cell(v.ep()).t).y) > 0,
        apart(v.cell(v.ep()).t, t),
        !same_cell(v.cell(v.ep()).t, v.ddeque()),
        valid(ip2),
        !same_cell(ip2, v.ddeque()),
        !same_cell(ip2, t[0]),
        !same_cell(ip2, v.cell(v.ep()).t),
        v1.wf(),
        v1.ddeque() == v.ddeque(),
        v1.cont_queue(t),
        v1.cell(v.cell(v.ep()).t) == v.cell(v.cell(v.ep()).t),
        v1.typeq(INSTR_T, ip2),
    ensures
        ({
            let kp = t[0];
            let sp = v.cell(v.ep()).t;
            let v2 = v1.set_ip_state(ip2);
            let v3 = v2.set_cell(sp, Quad { y: spec_fix(v.quota_of(v.cell(sp).y) - 1), ..v2.cell(sp) });
            let v4 = v3.cont_dequeue_step().1;
            let w = v4.cont_enqueue_step(kp).1;
            &&& v.kp() == kp
            &&& writable(v1.kp())
            &&& v3.cont_dequeue_step().0 == Ok::<Option<Any>, Error>(Some(kp))
            &&& v4.typeq(INSTR_T, ip2)
            &&& v4.cont_enqueue_step(kp).0 == Ok::<(), Error>(())
            &&& w.cont_queue(t.drop_first().push(kp))
            &&& w.cell(kp).t == ip2
            &&& w.cell(sp).y == spec_fix(v.quota_of(v.cell(sp).y) - 1)
        }),
{
    let kp = t[0];
    let sp = v.cell(v.ep()).t;
    let dq = v.ddeque();
    assert(writable(kp));
    assert(v.kp() == kp);
    assert(v1.kp() == kp);
    // the continuation now points at the next instruction
    let qk = Quad { t: ip2, ..v1.cell(kp) };
    assert(valid_quad(v1.cell(kp))) by {
        crate::lists::lemma_cell_fields_valid(v1, kp);
    }
    let rest = seq![sp, dq];
    v1.lemma_descriptor();
    assert forall|i: int| 0 <= i < rest.len() implies writable(#[trigger] rest[i]) && !same_cell(kp, rest[i]) by {}
    let t0 = t.drop_first();
    assert forall|i: int| 0 <= i < t0.len() implies writable(#[trigger] t0[i]) && !same_cell(kp, t0[i]) by {
        assert(t0[i] == t[i + 1]);
        assert(writable(t[i + 1]));
    }
    v1.lemma_cells_kept(kp, qk, rest);
    v1.lemma_cells_kept(kp, qk, t0);
    let v2 = v1.set_ip_state(ip2);
    assert(v2.cell(dq) == v1.cell(dq) && v2.cell(sp) == v1.cell(sp)) by {
        assert(rest[0] == sp && rest[1] == dq);
    }
    assert forall|i: int| 0 <= i < t.len() implies (#[trigger] v2.cell(t[i])).z == v1.cell(t[i]).z by {
        if i > 0 {
            assert(t0[i - 1] == t[i]);
        }
    }
    lemma_cont_queue_kept(v1, v2, t);
    // the sponsor is charged
    let n = v.quota_of(v.cell(sp).y);
    let qs = Quad { y: spec_fix(n - 1), ..v2.cell(sp) };
    assert(crate::quad::valid(spec_fix(n - 1))) by {
        crate::value::lemma_fix_roundtrip(n - 1);
    }
    assert(crate::cpu::valid_at(sp, qs)) by {
        crate::lists::lemma_cell_fields_valid(v2, sp);
    }
    v2.lemma_descriptor();
    assert forall|i: int| 0 <= i < t.len() implies writable(#[trigger] t[i]) && !same_cell(sp, t[i]) by {
        assert(writable(t[i]));
    }
    let rest2 = seq![dq];
    assert forall|i: int| 0 <= i < rest2.len() implies writable(#[trigger] rest2[i]) && !same_cell(sp, rest2[i]) by {}
    v2.lemma_cells_kept(sp, qs, t);
    v2.lemma_cells_kept(sp, qs, rest2);
    let v3 = v2.set_cell(sp, qs);
    assert(v3.cell(dq) == v2.cell(dq)) by {
        assert(rest2[0] == dq);
    }
    lemma_cont_queue_kept(v2, v3, t);
    // off the front ...
    crate::queue_laws::law_cont_dequeue_takes_first(v3, t);
    let v4 = v3.cont_dequeue_step().1;
    let keep = seq![kp, sp];
    assert forall|i: int| 0 <= i < keep.len() implies writable(#[trigger] keep[i]) && !same_cell(keep[i], v3.ddeque()) by {}
    crate::queue_laws::lemma_cont_dequeue_frame(v3, t, keep);
    assert(v4.cell(kp) == v3.cell(kp) && v4.cell(sp) == v3.cell(sp)) by {
        assert(keep[0] == kp && keep[1] == sp);
    }
    assert(v4.typeq(INSTR_T, ip2)) by {
        if crate::value::spec_is_ptr(ip2) {
            assert(readable(ip2));
            if spec_is_ram(ip2) {
                assert(v2.cell(ip2) == v1.cell(ip2)) by {
                    v1.lemma_set_cell_other(kp, qk, ip2);
                }
                assert(v3.cell(ip2) == v2.cell(ip2)) by {
                    v2.lemma_set_cell_other(sp, qs, ip2);
                }
                crate::queue_laws::lemma_cont_dequeue_frame(v3, t, seq![ip2]);
                assert(seq![ip2][0] == ip2);
            } else {
                assert(v4.rom == v1.rom);
            }
        }
    }
    // ... onto the back
    assert forall|i: int| 0 <= i < t0.len() implies !same_cell(kp, #[trigger] t0[i]) by {
        assert(t0[i] == t[i + 1]);
    }
    crate::queue_laws::law_cont_enqueue_appends(v4, t0, kp);
    let s1 = seq![sp];
    assert forall|i: int| 0 <= i < s1.len() implies writable(#[trigger] s1[i]) && !same_cell(s1[i], v4.ddeque()) && !same_cell(s1[i], kp) by {}
    assert forall|i: int, j: int| 0 <= i < s1.len() && 0 <= j < t0.len() implies !same_cell(#[trigger] s1[i], #[trigger] t0[j]) by {
        assert(t0[j] == t[j + 1]);
    }
    crate::queue_laws::lemma_cont_enqueue_frame(v4, t0, kp, s1);
    let w = v4.cont_enqueue_step(kp).1;
    assert(w.cell(sp) == v4.cell(sp)) by {
        assert(s1[0] == sp);
    }
}

/// Executing an instruction that continues at another instruction `ip2`:
/// the continuation moves from the front of the continuation queue to its
/// back, now at `ip2`, and the event's sponsor is charged one instruction.
/// This holds when the instruction itself leaves the continuation queue
/// and the sponsor's cell as they were, and `ip2` is neither of those cells.
#[verifier::spinoff_prover]
pub proof fn law_execute_requeues(v: CoreView, t: Seq<Any>, ip2: Any)
    requires
        v.wf(),
        v.cont_queue(t),
        t.len() > 0,
        spec_ofs(t[0]) != 0,
        spec_is_ptr(v.ep()),
        spec_is_ptr(v.cell(v.ep()).t),
        writable(v.cell(v.ep()).t),
        spec_ofs(v.cell(v.ep()).t) != 0,
        v.quota_of(v.cell(v.cell(v.ep()).t).y) > 0,
        apart(v.cell(v.ep()).t, t),
        !same_cell(v.cell(v.ep()).t, v.ddeque()),
        valid(ip2),
        !same_cell(ip2, v.ddeque()),
        !same_cell(ip2, t[0]),
        !same_cell(ip2, v.cell(v.ep()).t),
        v.perform_step(v.ip()).0 == Ok::<Any, Error>(ip2),
        v.perform_step(v.ip()).1.wf(),
        v.perform_step(v.ip()).1.ddeque() == v.ddeque(),
        v.perform_step(v.ip()).1.cont_queue(t),
        v.perform_step(v.ip()).1.cell(v.cell(v.ep()).t) == v.cell(v.cell(v.ep()).t),
        v.perform_step(v.ip()).1.typeq(INSTR_T, ip2),
    ensures
        ({
            let kp = t[0];
            let sp = v.cell(v.ep()).t;
            let (r, w) = v.execute_step();
            &&& r == Ok::<bool, Error>(true)
            &&& w.cont_queue(t.drop_first().push(kp))
            &&& w.cell(kp).t == ip2
            &&& w.cell(sp).y == spec_fix(v.quota_of(v.cell(sp).y) - 1)
        }),
{
    let v1 = v.perform_step(v.ip()).1;
    lemma_execute_effects(v, v1, t, ip2);
    lemma_execute_unfold(v, ip2, v1);
}

/// Writing a cell's own contents back changes nothing.
proof fn lemma_set_cell_same_contents(v: CoreView, a: Any)
    requires
        v.wf(),
        writable(a),
    ensures
        v.set_cell(a, v.cell(a)) == v,
{
    let w = v.set_cell(a, v.cell(a));
    assert(w.ram0 =~= v.ram0);
    assert(w.ram1 =~= v.ram1);
}

/// Freeing a cell past the memory descriptor: it becomes a free cell, and
/// every cell but it and the memory descriptor stays.
proof fn lemma_free_frame(u: CoreView, rb: Any)
    requires
        u.wf(),
        writable(rb),
        u.can_free(rb),
        spec_ofs(rb) != 0,
    ensures
        ({
            let w = u.free_state(rb);
            &&& w.wf()
            &&& w.ddeque() == u.ddeque()
            &&& w.typeq(FREE_T, rb)
            &&& forall|b: Any| readable(b) && !same_cell(b, rb) && !same_cell(b, u.memory())
                ==> #[trigger] w.cell(b) == u.cell(b)
            &&& w.memory() == u.memory()
            &&& w.mem_cell() == (Quad { x: rb, y: spec_fix(crate::value::fix_val(u.ram_free()) + 1), ..u.mem_cell() })
        }),
{
    let m = u.memory();
    crate::value::lemma_ram_ptr(u.phase(), 0);
    crate::value::lemma_ram_ptr(u.phase(), 1);
    let qf = mk(FREE_T, UNDEF, UNDEF, u.ram_next());
    crate::lists::lemma_cell_fields_valid(u, m);
    u.lemma_set_cell_keeps_phase(rb, qf);
    u.lemma_set_cell_wf(rb, qf);
    let u1 = u.set_cell(rb, qf);
    let n = crate::value::fix_val(u.ram_free());
    let qm = Quad { x: rb, y: spec_fix(n + 1), ..u.mem_cell() };
    crate::value::lemma_fix_roundtrip(n + 1);
    assert(u1.memory() == m);
    u.lemma_set_cell_other(rb, qf, m);
    assert(u1.mem_cell() == u.mem_cell());
    u1.lemma_set_cell_keeps_phase(m, qm);
    u1.lemma_set_cell_wf(m, qm);
    let w = u1.set_cell(m, qm);
    assert(w == u.free_state(rb));
    u1.lemma_set_cell_other(m, qm, rb);
    u.lemma_set_cell_same(rb, qf, rb);
    assert forall|b: Any| readable(b) && !same_cell(b, rb) && !same_cell(b, m) implies #[trigger] w.cell(b) == u.cell(b) by {
        u.lemma_set_cell_other(rb, qf, b);
        u1.lemma_set_cell_other(m, qm, b);
    }
}

impl CoreView {
    /// The head continuation can be reverted with nothing to undo but the
    /// dispatch: its stack holds just the actor's state, the actor has sent
    /// nothing, the event keeps a snapshot of the actor that can be freed,
    /// and the queues, the event, the actor and the snapshot lie in distinct
    /// cells below the top of the heap.
    pub open spec fn revert_ready(self, s: Seq<Any>, t: Seq<Any>) -> bool {
        &&& self.wf()
        &&& self.event_queue(s)
        &&& self.cont_queue(t)
        &&& t.len() > 0
        &&& self.all_in_heap(s)
        &&& self.all_in_heap(t)
        &&& disjoint(s, t)
        &&& ({
                let kp = t[0];
                let ep = self.cell(kp).y;
                let ev = self.cell(ep);
                let a = clear_opq(ev.x);
                let rb = ev.z;
                &&& writable(ep)
                &&& !spec_is_fix(ev.x)
                &&& self.cell(ev.x).t == ACTOR_T
                &&& writable(a)
                &&& writable(rb)
                &&& self.all_in_heap(seq![ep, a, rb])
                &&& valid_quad(self.cell(rb))
                &&& self.cell(rb).t != FREE_T
                &&& self.cell(kp).x == self.cell(a).y
                &&& !spec_is_ram(self.cell(a).z)
                &&& spec_is_fix(self.ram_free())
                &&& crate::value::fix_val(self.ram_free()) + 1 < 0x4000_0000
                &&& !same_cell(a, rb) && !same_cell(a, ep) && !same_cell(rb, ep) && !same_cell(a, kp) && !same_cell(rb, kp)
                &&& !same_cell(ep, self.ddeque()) && !same_cell(a, self.ddeque()) && !same_cell(rb, self.ddeque())
                &&& apart(ep, s) && apart(ep, t) && apart(a, s) && apart(a, t) && apart(rb, s) && apart(rb, t)
        })
    }
}

/// The abort step of a revert with nothing to undo: the actor gets its
/// snapshot back and the snapshot's cell is freed; the queues stay.
#[verifier::spinoff_prover]
#[verifier::rlimit(80)]
proof fn lemma_revert_abort(w: CoreView, s: Seq<Any>, t: Seq<Any>)
    requires
        w.revert_ready(s, t),
    ensures
        ({
            let kp = t[0];
            let ep = w.cell(kp).y;
            let ev = w.cell(ep);
            let a = clear_opq(ev.x);
            let rb = ev.z;
            let v1 = w.set_cell(a, w.cell(rb)).free_state(rb);
            &&& w.k_first() == kp
            &&& writable(kp)
            &&& spec_is_ptr(ep)
            &&& w.cell(ev.x).t == ACTOR_T
            &&& w.actor_abort_step(a) == (Ok::<(), Error>(()), v1)
            &&& v1.wf()
            &&& v1.ddeque() == w.ddeque()
            &&& v1.event_queue(s)
            &&& v1.cont_queue(t)
            &&& v1.cell(a) == w.cell(rb)
            &&& v1.cell(ep) == ev
            &&& v1.typeq(FREE_T, rb)
        }),
{
    let kp = t[0];
    let ep = w.cell(kp).y;
    let ev = w.cell(ep);
    let a = clear_opq(ev.x);
    let rb = ev.z;
    let q = w.cell(rb);
    let dq = w.ddeque();
    let m = w.memory();
    let u3 = seq![ep, a, rb];
    assert(u3[0] == ep && u3[1] == a && u3[2] == rb);
    assert(w.in_heap(ep) && spec_ofs(ep) != 0 && spec_ofs(a) != 0 && spec_ofs(rb) != 0);
    crate::value::lemma_ram_ptr(w.phase(), 0);
    crate::value::lemma_ram_ptr(w.phase(), 1);
    assert(writable(kp)) by {
        assert(writable(t[0]));
    }
    assert(w.k_first() == kp);
    assert(w.kp() == kp && w.sp() == w.cell(a).y && w.ep() == ep);
    crate::value::lemma_raw_edits(ev.x);
    crate::value::lemma_opq_fields(ev.x);
    assert(w.cell(ev.x) == w.cell(a));
    // the abort: nothing to clear or free; the actor gets the snapshot back
    lemma_set_cell_same_contents(w, kp);
    assert(w.stack_clear_step(w.cell(a).y) == (Ok::<(), Error>(()), w));
    assert(w.abort_loop(w.cell(a).z, crate::lists::WALK_MAX as nat) == (Ok::<(), Error>(()), w));
    crate::cpu::lemma_valid_quad_at(a, q);
    w.lemma_set_cell_keeps_phase(a, q);
    w.lemma_set_cell_wf(a, q);
    let u = w.set_cell(a, q);
    w.lemma_set_cell_same(a, q, a);
    w.lemma_set_cell_other(a, q, rb);
    w.lemma_set_cell_other(a, q, m);
    assert(u.mem_cell() == w.mem_cell());
    assert(u.can_free(rb));
    lemma_free_frame(u, rb);
    let v1 = u.free_state(rb);
    assert(w.abort_rest(a) == (Ok::<(), Error>(()), v1));
    assert(w.actor_abort_step(a) == (Ok::<(), Error>(()), v1));
    // what the abort kept
    assert forall|b: Any| readable(b) && !same_cell(b, a) && !same_cell(b, rb) && !same_cell(b, m) implies #[trigger] v1.cell(b) == w.cell(b) by {
        w.lemma_set_cell_other(a, q, b);
    }
    assert(v1.cell(a) == q);
    assert(v1.cell(dq) == w.cell(dq));
    assert(v1.cell(ep) == ev);
    assert forall|i: int| 0 <= i < s.len() implies #[trigger] v1.cell(s[i]) == w.cell(s[i]) by {
        assert(writable(s[i]) && spec_ofs(s[i]) != 0);
    }
    assert forall|i: int| 0 <= i < t.len() implies #[trigger] v1.cell(t[i]) == w.cell(t[i]) by {
        assert(writable(t[i]) && spec_ofs(t[i]) != 0);
    }
    lemma_event_queue_kept(w, v1, s);
    lemma_cont_queue_kept(w, v1, t);
}

/// The queue steps of a revert: the continuation leaves the front of its
/// queue and the event goes to the back of the event queue.
#[verifier::spinoff_prover]
#[verifier::rlimit(80)]
proof fn lemma_revert_requeue(v1: CoreView, s: Seq<Any>, t: Seq<Any>, ep: Any, a: Any, rb: Any)
    requires
        v1.wf(),
        v1.event_queue(s),
        v1.cont_queue(t),
        t.len() > 0,
        writable(ep),
        writable(a),
        writable(rb),
        !same_cell(ep, v1.ddeque()),
        !same_cell(a, v1.ddeque()),
        !same_cell(rb, v1.ddeque()),
        !same_cell(a, ep),
        !same_cell(rb, ep),
        apart(ep, s),
        apart(a, s),
        apart(rb, s),
        apart(ep, t),
        disjoint(s, t),
        v1.typeq(FREE_T, rb),
    ensures
        ({
            let (r2, v2) = v1.cont_dequeue_step();
            let (r3, x) = v2.event_enqueue_step(ep);
            &&& r2 == Ok::<Option<Any>, Error>(Some(t[0]))
            &&& r3 == Ok::<(), Error>(())
            &&& x.cell(a) == v1.cell(a)
            &&& x.typeq(FREE_T, rb)
            &&& x.cont_queue(t.drop_first())
            &&& x.event_queue(s.push(ep))
            &&& x.cell(ep) == (Quad { z: NIL, ..v1.cell(ep) })
        }),
{
    // the continuation leaves its queue
    crate::queue_laws::law_cont_dequeue_takes_first(v1, t);
    let keep = seq![ep, a, rb];
    assert forall|i: int| 0 <= i < keep.len() implies writable(#[trigger] keep[i]) && !same_cell(keep[i], v1.ddeque()) by {}
    crate::queue_laws::lemma_cont_dequeue_frame(v1, t, keep);
    assert forall|i: int| 0 <= i < s.len() implies writable(#[trigger] s[i]) && !same_cell(s[i], v1.ddeque()) by {
        assert(writable(s[i]));
    }
    crate::queue_laws::lemma_cont_dequeue_frame(v1, t, s);
    let v2 = v1.cont_dequeue_step().1;
    assert(v2.cell(ep) == v1.cell(ep) && v2.cell(a) == v1.cell(a)) by {
        assert(keep[0] == ep && keep[1] == a);
    }
    lemma_event_queue_kept(v1, v2, s);
    // the event goes to the back of the event queue
    crate::queue_laws::law_event_enqueue_appends(v2, s, ep);
    let rest = seq![a, rb];
    assert forall|i: int| 0 <= i < rest.len() implies writable(#[trigger] rest[i]) && !same_cell(rest[i], v2.ddeque()) && !same_cell(rest[i], ep) by {}
    assert forall|i: int, j: int| 0 <= i < rest.len() && 0 <= j < s.len() implies !same_cell(#[trigger] rest[i], #[trigger] s[j]) by {}
    crate::queue_laws::lemma_event_enqueue_frame(v2, s, ep, rest);
    let t1 = t.drop_first();
    assert forall|i: int| 0 <= i < t1.len() implies writable(#[trigger] t1[i]) && !same_cell(t1[i], v2.ddeque()) && !same_cell(t1[i], ep) by {
        assert(t1[i] == t[i + 1]);
        assert(writable(t[i + 1]));
    }
    assert forall|i: int, j: int| 0 <= i < t1.len() && 0 <= j < s.len() implies !same_cell(#[trigger] t1[i], #[trigger] s[j]) by {
        assert(t1[i] == t[i + 1]);
    }
    crate::queue_laws::lemma_event_enqueue_frame(v2, s, ep, t1);
    let x = v2.event_enqueue_step(ep).1;
    lemma_cont_queue_kept(v2, x, t1);
    assert(x.cell(a) == v2.cell(a) && x.cell(rb) == v2.cell(rb)) by {
        assert(rest[0] == a && rest[1] == rb);
    }
    assert(v2.cell(rb) == v1.cell(rb)) by {
        assert(keep[2] == rb);
    }
}


/// Reverting the head continuation when nothing has happened in its
/// transaction yet (its stack holds just the actor's state and the actor has
/// sent nothing): the actor gets back the snapshot kept in the event, the
/// snapshot's cell is freed, the continuation leaves the front of its queue,
/// and the event goes to the back of the event queue with its sponsor,
/// target and message unchanged, ready to be dispatched again.
#[verifier::spinoff_prover]
#[verifier::rlimit(80)]
pub proof fn law_revert_restores_actor(w: CoreView, s: Seq<Any>, t: Seq<Any>)
    requires
        w.revert_ready(s, t),
    ensures
        ({
            let kp = t[0];
            let ep = w.cell(kp).y;
            let ev = w.cell(ep);
            let a = clear_opq(ev.x);
            let rb = ev.z;
            let (r, x) = w.actor_revert_step();
            &&& r == Ok::<bool, Error>(true)
            &&& x.cell(a) == w.cell(rb)
            &&& x.typeq(FREE_T, rb)
            &&& x.cont_queue(t.drop_first())
            &&& x.event_queue(s.push(ep))
            &&& x.cell(ep) == (Quad { z: NIL, ..ev })
        }),
{
    let kp = t[0];
    let ep = w.cell(kp).y;
    let ev = w.cell(ep);
    let a = clear_opq(ev.x);
    let rb = ev.z;
    lemma_revert_abort(w, s, t);
    let v1 = w.set_cell(a, w.cell(rb)).free_state(rb);
    assert(w.all_in_heap(seq![ep, a, rb]));
    lemma_revert_requeue(v1, s, t, ep, a, rb);
}

/// Reverting right after a dispatch undoes it: with no other continuation
/// waiting, dispatching the front event to an idle actor and then reverting
/// gives `true`, leaves the actor as it was before the dispatch, no
/// continuation in the queue, and the event at the back of the event queue
/// with its sponsor, target and message unchanged, to be dispatched again.
#[verifier::spinoff_prover]
#[verifier::rlimit(80)]
pub proof fn law_revert_undoes_dispatch(v: CoreView, s: Seq<Any>)
    requires
        v.wf(),
        v.event_queue(s),
        s.len() > 0,
        v.cont_queue(Seq::<Any>::empty()),
        v.dispatch_ready(),
        !spec_is_fix(v.front_target().x),
        v.front_target().z == UNDEF,
        valid_quad(v.front_target()),
        writable(v.front_actor()),
        writable(v.front_sponsor()),
        !v.free_path(),
        writable(v.ram_top()),
        spec_ofs(v.ram_top()) + 2 < QUAD_RAM_MAX,
        v.in_heap(v.ddeque()),
        v.all_in_heap(s),
        v.all_in_heap(seq![v.front_actor(), v.front_sponsor()]),
        apart(v.front_actor(), s),
        apart(v.front_sponsor(), s),
        !same_cell(v.front_actor(), v.front_sponsor()),
        !same_cell(v.front_actor(), v.ddeque()),
        !same_cell(v.front_sponsor(), v.ddeque()),
        spec_is_fix(v.ram_free()),
        crate::value::fix_val(v.ram_free()) + 1 < 0x4000_0000,
    ensures
        ({
            let ep = s[0];
            let a = v.front_actor();
            let w = v.dispatch_step().1;
            let (r, x) = w.actor_revert_step();
            &&& r == Ok::<bool, Error>(true)
            &&& x.cell(a) == v.cell(a)
            &&& !spec_is_ram(x.k_first())
            &&& x.event_queue(s.drop_first().push(ep))
            &&& x.cell(ep).t == v.cell(ep).t
            &&& x.cell(ep).x == v.cell(ep).x
            &&& x.cell(ep).y == v.cell(ep).y
        }),
{
    let t = Seq::<Any>::empty();
    let ep = s[0];
    let event = v.cell(ep);
    let a = v.front_actor();
    let actor = v.cell(a);
    let rb = v.ram_top();
    let k = v.reserve_state(actor).ram_top();
    assert(v.all_in_heap(t) && disjoint(s, t) && apart(a, t) && apart(v.front_sponsor(), t));
    law_dispatch_starts_actor(v, s, t);
    let w = v.dispatch_step().1;
    let s1 = s.drop_first();
    let t1 = t.push(k);
    assert(t1 =~= seq![k]);
    crate::value::lemma_ram_ptr(v.phase(), 0);
    crate::value::lemma_ram_ptr(v.phase(), 1);
    lemma_top_reserve(v, actor);
    assert(spec_ofs(rb) > 1 && spec_ofs(k) == spec_ofs(rb) + 1);
    assert(v.in_heap(a) && spec_ofs(a) != 0) by {
        assert(seq![a, v.front_sponsor()][0] == a);
    }
    assert(writable(ep) && v.in_heap(ep) && spec_ofs(ep) != 0) by {
        assert(writable(s[0]));
    }
    crate::value::lemma_raw_edits(event.x);
    crate::value::lemma_opq_fields(event.x);
    assert(v.cell(event.x) == actor);
    assert(w.cell(event.x) == w.cell(a));
    assert(w.cell(k).y == ep);
    assert forall|i: int| 0 <= i < s1.len() implies w.in_heap(#[trigger] s1[i]) && spec_ofs(s1[i]) != 0 by {
        assert(s1[i] == s[i + 1]);
        assert(v.in_heap(s[i + 1]));
    }
    assert(w.all_in_heap(t1));
    assert(w.all_in_heap(seq![ep, a, rb])) by {
        let u = seq![ep, a, rb];
        assert(u[0] == ep && u[1] == a && u[2] == rb);
    }
    assert forall|i: int| 0 <= i < s1.len() implies !same_cell(ep, #[trigger] s1[i]) && !same_cell(a, s1[i]) && !same_cell(rb, s1[i]) by {
        assert(s1[i] == s[i + 1]);
        assert(v.in_heap(s[i + 1]));
    }
    assert(disjoint(s1, t1)) by {
        assert forall|i: int, j: int| 0 <= i < s1.len() && 0 <= j < t1.len() implies !same_cell(#[trigger] s1[i], #[trigger] t1[j]) by {
            assert(s1[i] == s[i + 1]);
            assert(v.in_heap(s[i + 1]));
        }
    }
    assert(w.revert_ready(s1, t1));
    law_revert_restores_actor(w, s1, t1);
    assert(t1.drop_first() =~= Seq::<Any>::empty());
}

/// A dispatch the front event's sponsor cannot pay for fails with
/// `E_MSG_LIM`, and one to an actor whose behavior names a device number out
/// of range fails with `E_BOUNDS`; either way nothing changes: the event
/// stays at the front of the queue and no limit is charged.
pub proof fn law_dispatch_refusals(v: CoreView)
    requires
        v.wf(),
        spec_is_ram(v.e_first()),
        writable(v.e_first()),
        spec_is_ptr(v.front_sponsor()),
        readable(v.front_sponsor()),
    ensures
        v.quota_of(v.cell(v.front_sponsor()).x) <= 0 ==> v.dispatch_step() == (Err::<Dispatch, Error>(E_MSG_LIM), v),
        ({
            let target = v.cell(v.e_first()).x;
            let beh = v.front_target().x;
            (v.quota_of(v.cell(v.front_sponsor()).x) > 0 && !spec_is_fix(target) && v.cell(target).t == ACTOR_T
                && spec_is_fix(beh) && !(0 <= crate::value::fix_val(beh) < DEVICE_MAX))
                ==> v.dispatch_step() == (Err::<Dispatch, Error>(E_BOUNDS), v)
        }),
{
}

/// With no continuation, executing does nothing and answers `Ok(false)`;
/// when the current event's sponsor has no instructions left, it fails with
/// `E_CPU_LIM` and changes nothing; when the instruction itself fails, the
/// outcome is the instruction's: the continuation is not advanced and the
/// sponsor is not charged.
pub proof fn law_execute_guards(v: CoreView)
    requires
        v.wf(),
    ensures
        !spec_is_ram(v.kp()) ==> v.execute_step() == (Ok::<bool, Error>(false), v),
        ({
            let sponsor = v.cell(v.ep()).t;
            (spec_is_ram(v.kp()) && !spec_is_cap(v.kp()) && spec_is_ptr(v.ep()) && spec_is_ptr(sponsor)
                && readable(sponsor) && v.quota_of(v.cell(sponsor).y) <= 0)
                ==> v.execute_step() == (Err::<bool, Error>(E_CPU_LIM), v)
        }),
        ({
            let sponsor = v.cell(v.ep()).t;
            (spec_is_ram(v.kp()) && !spec_is_cap(v.kp()) && spec_is_ptr(v.ep()) && spec_is_ptr(sponsor)
                && readable(sponsor) && v.quota_of(v.cell(sponsor).y) > 0 && v.perform_step(v.ip()).0 is Err)
                ==> v.execute_step() == (Err::<bool, Error>(v.perform_step(v.ip()).0->Err_0), v.perform_step(v.ip()).1)
        }),
{
}

impl CoreView {
    /// The current actor's transaction can be committed with nothing left on
    /// the stack above the actor's state: the event keeps a snapshot that
    /// can be freed, the actor's sent events form a chain, and the queue,
    /// the sent events, the event, the actor and the snapshot lie in
    /// distinct cells past the memory descriptor.
    pub open spec fn commit_ready(self, me: Any, s: Seq<Any>, p: Seq<Any>) -> bool {
        let kp = self.kp();
        let ep = self.ep();
        let rb = self.cell(ep).z;
        &&& self.wf()
        &&& self.event_queue(s)
        &&& self.event_chain(self.cell(me).z, p)
        &&& p.len() < crate::lists::WALK_MAX
        &&& disjoint(s, p)
        &&& self.kp_ok()
        &&& writable(kp)
        &&& writable(ep)
        &&& writable(me)
        &&& writable(rb)
        &&& self.cell(kp).x == self.cell(me).y
        &&& self.in_heap(rb)
        &&& self.cell(rb).t != FREE_T
        &&& spec_is_fix(self.ram_free())
        &&& crate::value::fix_val(self.ram_free()) + 1 < 0x4000_0000
        &&& self.all_in_heap(s)
        &&& self.all_in_heap(p)
        &&& self.all_in_heap(seq![kp, ep, me, rb])
        &&& !same_cell(me, rb) && !same_cell(me, kp) && !same_cell(me, ep)
        &&& !same_cell(rb, kp) && !same_cell(rb, ep)
        &&& !same_cell(me, self.ddeque()) && !same_cell(rb, self.ddeque())
        &&& apart(me, s) && apart(me, p) && apart(rb, s) && apart(rb, p) && apart(kp, s) && apart(kp, p)
    }
}

/// Committing the current actor's transaction: the rollback snapshot is
/// freed, the events the actor sent join the back of the event queue in
/// the order of their chain, and the actor is marked idle (its `z` field
/// `UNDEF`), keeping its behavior and state.
#[verifier::spinoff_prover]
#[verifier::rlimit(80)]
pub proof fn law_commit_delivers(v: CoreView, me: Any, s: Seq<Any>, p: Seq<Any>)
    requires
        v.commit_ready(me, s, p),
    ensures
        ({
            let rb = v.cell(v.ep()).z;
            let (r, w) = v.actor_commit_step(me);
            &&& r == Ok::<(), Error>(())
            &&& w.event_queue(s + p)
            &&& w.cell(me) == (Quad { z: UNDEF, ..v.cell(me) })
            &&& w.typeq(FREE_T, rb)
            &&& w.wf()
            &&& w.memory() == v.memory()
            &&& w.ram_top() == v.ram_top()
            &&& w.ram_free() == spec_fix(crate::value::fix_val(v.ram_free()) + 1)
            &&& w.ddeque() == v.ddeque()
        }),
{
    let kp = v.kp();
    let ep = v.ep();
    let rb = v.cell(ep).z;
    let dq = v.ddeque();
    let m = v.memory();
    let u4 = seq![kp, ep, me, rb];
    assert(u4[0] == kp && u4[1] == ep && u4[2] == me && u4[3] == rb);
    assert(spec_ofs(kp) != 0 && spec_ofs(me) != 0 && spec_ofs(rb) != 0 && spec_ofs(ep) != 0);
    crate::value::lemma_ram_ptr(v.phase(), 0);
    crate::value::lemma_ram_ptr(v.phase(), 1);
    // the snapshot is freed
    assert(v.can_free(rb));
    lemma_free_frame(v, rb);
    let v1 = v.free_state(rb);
    assert(v1.cell(kp) == v.cell(kp) && v1.cell(me) == v.cell(me) && v1.cell(dq) == v.cell(dq));
    assert forall|i: int| 0 <= i < s.len() implies #[trigger] v1.cell(s[i]) == v.cell(s[i]) by {
        assert(writable(s[i]) && spec_ofs(s[i]) != 0);
    }
    assert forall|i: int| 0 <= i < p.len() implies #[trigger] v1.cell(p[i]) == v.cell(p[i]) by {
        assert(writable(p[i]) && spec_ofs(p[i]) != 0);
    }
    lemma_event_queue_kept(v, v1, s);
    // nothing to clear off the stack
    assert(v1.kp() == kp && v1.sp() == v1.cell(me).y);
    lemma_set_cell_same_contents(v1, kp);
    assert(v1.stack_clear_step(v1.cell(me).y) == (Ok::<(), Error>(()), v1));
    // the sent events are moved
    assert(v1.event_chain(v1.cell(me).z, p)) by {
        if p.len() > 0 {
            assert(v1.cell(p[p.len() - 1]) == v.cell(p[p.len() - 1]));
        }
    }
    crate::queue_laws::law_commit_moves_sent_events(v1, s, p, v1.cell(me).z, crate::lists::WALK_MAX as nat);
    let v3 = v1.commit_loop(v1.cell(me).z, crate::lists::WALK_MAX as nat).1;
    assert forall|i: int, j: int| 0 <= i < s.len() && 0 <= j < p.len() implies !same_cell(#[trigger] s[i], #[trigger] p[j]) by {}
    crate::queue_laws::lemma_commit_loop_frame(v1, s, p, v1.cell(me).z, crate::lists::WALK_MAX as nat, me);
    crate::queue_laws::lemma_commit_loop_frame(v1, s, p, v1.cell(me).z, crate::lists::WALK_MAX as nat, rb);
    crate::queue_laws::lemma_commit_loop_frame(v1, s, p, v1.cell(me).z, crate::lists::WALK_MAX as nat, m);
    // the actor is marked idle
    let q = Quad { z: UNDEF, ..v3.cell(me) };
    assert(crate::cpu::valid_at(me, q)) by {
        crate::lists::lemma_cell_fields_valid(v3, me);
    }
    let sp1 = s + p;
    assert forall|i: int| 0 <= i < sp1.len() implies writable(#[trigger] sp1[i]) && !same_cell(me, sp1[i]) by {
        if i < s.len() {
            assert(sp1[i] == s[i]);
            assert(writable(s[i]));
        } else {
            assert(sp1[i] == p[i - s.len()]);
            assert(writable(p[i - s.len()]));
        }
    }
    assert(v3.ddeque() == dq);
    let rest = seq![rb, dq, m];
    assert forall|i: int| 0 <= i < rest.len() implies writable(#[trigger] rest[i]) && !same_cell(me, rest[i]) by {}
    v3.lemma_cells_kept(me, q, sp1);
    v3.lemma_cells_kept(me, q, rest);
    let w = v3.set_link(me, UNDEF);
    assert(w.cell(rb) == v3.cell(rb) && w.cell(dq) == v3.cell(dq) && w.cell(m) == v3.cell(m)) by {
        assert(rest[0] == rb && rest[1] == dq && rest[2] == m);
    }
    assert(w.memory() == m);
    lemma_event_queue_kept(v3, w, sp1);
    assert(v.actor_commit_step(me) == (Ok::<(), Error>(()), w));
}

/// `VM_END` with `END_COMMIT` commits the current actor's transaction and
/// answers `TRUE`: the sent events join the back of the event queue, the
/// actor is marked idle, and the rollback snapshot is freed.
pub proof fn law_perform_end_commit(v: CoreView, ip: Any, me: Any, s: Seq<Any>, p: Seq<Any>)
    requires
        spec_is_ptr(ip),
        readable(ip),
        v.cell(ip).t == INSTR_T,
        v.cell(ip).x == crate::value::VM_END,
        v.cell(ip).y == crate::value::END_COMMIT,
        v.self_ptr_result() == Ok::<Any, Error>(me),
        v.commit_ready(me, s, p),
    ensures
        ({
            let (r, w) = v.perform_step(ip);
            &&& r == Ok::<Any, Error>(crate::value::TRUE)
            &&& w.event_queue(s + p)
            &&& w.cell(me) == (Quad { z: UNDEF, ..v.cell(me) })
            &&& w.typeq(FREE_T, v.cell(v.ep()).z)
        }),
{
    law_commit_delivers(v, me, s, p);
    assert(v.end_step(crate::value::END_COMMIT) == (Ok::<Any, Error>(crate::value::TRUE), v.actor_commit_step(me).1));
}

/// `VM_END` with `END_RELEASE` clears the current actor's state, commits its
/// transaction, then frees the actor and answers `FALSE`: as for a commit,
/// the events the actor sent join the back of the event queue in the order
/// of their chain, and the actor's cell becomes a free cell.
#[verifier::spinoff_prover]
#[verifier::rlimit(60)]
pub proof fn law_perform_end_release(v: CoreView, ip: Any, me: Any, s: Seq<Any>, p: Seq<Any>)
    requires
        v.wf(),
        spec_is_ptr(ip),
        readable(ip),
        v.cell(ip).t == INSTR_T,
        v.cell(ip).x == crate::value::VM_END,
        v.cell(ip).y == crate::value::END_RELEASE,
        v.self_ptr_result() == Ok::<Any, Error>(me),
        v.set_cell(me, Quad { y: NIL, ..v.cell(me) }).commit_ready(me, s, p),
        v.cell(me).t != FREE_T,
        crate::value::fix_val(v.ram_free()) + 2 < 0x4000_0000,
    ensures
        ({
            let (r, w) = v.perform_step(ip);
            &&& r == Ok::<Any, Error>(crate::value::FALSE)
            &&& w.event_queue(s + p)
            &&& w.typeq(FREE_T, me)
        }),
{
    let actor = Quad { y: NIL, ..v.cell(me) };
    let u = v.set_cell(me, actor);
    let m = v.memory();
    crate::value::lemma_ram_ptr(v.phase(), 0);
    crate::value::lemma_ram_ptr(v.phase(), 1);
    assert(u.all_in_heap(seq![u.kp(), u.ep(), me, u.cell(u.ep()).z]));
    assert(seq![u.kp(), u.ep(), me, u.cell(u.ep()).z][2] == me);
    assert(u.in_heap(me) && spec_ofs(me) != 0 && writable(me));
    assert(valid_quad(actor)) by {
        crate::lists::lemma_cell_fields_valid(v, me);
    }
    v.lemma_set_cell_keeps_phase(me, actor);
    v.lemma_set_cell_other(me, actor, m);
    assert(u.mem_cell() == v.mem_cell());
    law_commit_delivers(u, me, s, p);
    let w1 = u.actor_commit_step(me).1;
    let n = crate::value::fix_val(v.ram_free());
    crate::value::lemma_fix_roundtrip(n + 1);
    u.lemma_set_cell_same(me, actor, me);
    assert(w1.cell(me).t == v.cell(me).t);
    assert(w1.can_free(me));
    lemma_free_frame(w1, me);
    let w = w1.free_state(me);
    let sp1 = s + p;
    assert forall|i: int| 0 <= i < sp1.len() implies #[trigger] w.cell(sp1[i]) == w1.cell(sp1[i]) by {
        if i < s.len() {
            assert(sp1[i] == s[i]);
            assert(writable(s[i]) && spec_ofs(s[i]) != 0);
        } else {
            assert(sp1[i] == p[i - s.len()]);
            assert(writable(p[i - s.len()]) && spec_ofs(p[i - s.len()]) != 0);
        }
    }
    assert(w.cell(w1.ddeque()) == w1.cell(w1.ddeque()));
    lemma_event_queue_kept(w1, w, sp1);
    assert(v.end_step(crate::value::END_RELEASE) == (Ok::<Any, Error>(crate::value::FALSE), w));
}

/// `VM_END` with `END_ABORT`, run by an actor that has sent nothing and
/// whose stack holds one item (the reason) above its state: the instruction
/// answers `UNIT`, the actor gets back the snapshot its event kept, the
/// snapshot's cell is freed, and both queues stay as they were.
#[verifier::spinoff_prover]
#[verifier::rlimit(60)]
pub proof fn law_perform_end_abort(v: CoreView, ip: Any, me: Any, s: Seq<Any>, t: Seq<Any>)
    requires
        v.wf(),
        v.stack_ok(),
        v.stack_items().len() > 0,
        spec_is_ptr(ip),
        readable(ip),
        v.cell(ip).t == INSTR_T,
        v.cell(ip).x == crate::value::VM_END,
        v.cell(ip).y == crate::value::END_ABORT,
        v.self_ptr_result() == Ok::<Any, Error>(me),
        v.pop_step().1.revert_ready(s, t),
    ensures
        ({
            let rb = v.cell(v.ep()).z;
            let (r, w) = v.perform_step(ip);
            &&& r == Ok::<Any, Error>(crate::value::UNIT)
            &&& w.cell(me) == v.cell(rb)
            &&& w.typeq(FREE_T, rb)
            &&& w.event_queue(s)
            &&& w.cont_queue(t)
        }),
{
    let sp = v.sp();
    let kp = v.kp();
    let ep = v.ep();
    crate::op_laws::law_stack_pop_takes_top(v);
    let v1 = v.pop_step().1;
    let c = v.cdr(sp);
    crate::laws::lemma_spine_links(v, sp, crate::lists::WALK_MAX as nat);
    assert(v.typeq(PAIR_T, sp));
    crate::lists::lemma_cell_fields_valid(v, sp);
    lemma_revert_abort(v1, s, t);
    let q = Quad { x: c, ..v.cell(kp) };
    let dq = v.ddeque();
    crate::value::lemma_ram_ptr(v.phase(), 1);
    crate::lists::lemma_cell_fields_valid(v, dq);
    assert(spec_is_ram(kp)) by {
        if !spec_is_ram(kp) {
            assert(sp == UNDEF);
        }
    }
    assert(writable(kp));
    v.lemma_set_cell_keeps_types(kp, q);
    if same_cell(kp, dq) {
        v.lemma_set_cell_same(kp, q, dq);
    } else {
        v.lemma_set_cell_other(kp, q, dq);
    }
    assert(v1.kp() == kp);
    assert(kp == t[0]);
    v.lemma_set_cell_same(kp, q, kp);
    assert(v1.ep() == ep);
    assert(!same_cell(ep, kp)) by {
        if same_cell(ep, kp) {
            assert(v.cell(ep) == v.cell(kp));
            assert(v.cell(sp).t == PAIR_T);
        }
    }
    assert(writable(ep));
    v.lemma_set_cell_other(kp, q, ep);
    assert(v1.cell(ep) == v.cell(ep));
    let rb = v.cell(ep).z;
    v.lemma_set_cell_other(kp, q, rb);
    assert(v1.cell(rb) == v.cell(rb));
    assert(me == clear_opq(v.cell(ep).x));
    assert(v.end_step(crate::value::END_ABORT) == (Ok::<Any, Error>(crate::value::UNIT), v1.actor_abort_step(me).1));
}

/// `VM_END` with `END_STOP` fails with `E_FAIL` once the current actor is
/// found, and changes nothing.
pub proof fn law_perform_end_stop(v: CoreView, ip: Any, me: Any)
    requires
        spec_is_ptr(ip),
        readable(ip),
        v.cell(ip).t == INSTR_T,
        v.cell(ip).x == crate::value::VM_END,
        v.cell(ip).y == crate::value::END_STOP,
        v.self_ptr_result() == Ok::<Any, Error>(me),
    ensures
        v.perform_step(ip) == (Err::<Any, Error>(crate::value::E_FAIL), v),
{
}

} // verus!
