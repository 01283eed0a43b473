//! What the list-building stack instructions do to the stack: `VM_PAIR n`
//! gathers the top `n` items into a list that ends in the next one,
//! `VM_PART n` takes the first `n` elements off the list on top, leaving
//! its rest below them, `VM_DUP n` pushes copies of the top `n` items,
//! `VM_DROP n` drops them, and `VM_MY MY_STATE` spreads the actor's state
//! list onto the stack; and what the instructions that replace or push a
//! single item (`VM_EQ`, `VM_TYPEQ`, `VM_NTH`, `VM_PUSH`, `VM_MSG`, `VM_DEPTH`, and
//! `VM_ALU` with `ALU_NOT`) leave on it.
use vstd::prelude::*;
use crate::value::{Any, Error, spec_is_fix, spec_is_ram, spec_ofs, spec_is_ptr, fix_val, PAIR_T, INSTR_T, NIL, UNDEF, VM_PAIR, VM_PART, VM_MY, MY_STATE, VM_DUP, VM_DROP, VM_EQ, VM_TYPEQ, VM_DEPTH, VM_NTH, VM_PUSH, VM_MSG, VM_ALU, ALU_NOT, GC_FWD_T, TRUE, FALSE, spec_fix};
use crate::quad::{Quad, valid, mk};
use crate::cpu::{CoreView, readable, writable, same_cell};
use crate::lists::{lemma_cell_fields_valid, WALK_MAX};
use crate::laws::lemma_spine_links;
use crate::deque_laws::lemma_cons_keeps_pairs;
use crate::dict_laws::lemma_top_alloc;
use crate::op_laws::lemma_set_sp_keeps_alloc;

verus! {

impl CoreView {
    /// The list reached from `p` by following `cdr` `j` times.
    pub open spec fn after(self, p: Any, j: nat) -> Any
        decreases j,
    {
        if j == 0 {
            p
        } else {
            self.after(self.cdr(p), (j - 1) as nat)
        }
    }

    /// What list work has left of `v0`: the same continuation, event,
    /// sponsor and descriptors, every pair of `v0`'s heap as it was, and
    /// allocation still from the top of the heap.
    #[verifier::opaque]
    pub open spec fn work_from(self, v0: CoreView) -> bool {
        &&& v0.wf()
        &&& v0.top_alloc()
        &&& self.wf()
        &&& self.top_alloc()
        &&& v0.keeps_pairs(self)
        &&& self.kp() == v0.kp()
        &&& self.ep() == v0.ep()
        &&& self.cur_sponsor() == v0.cur_sponsor()
        &&& self.memory() == v0.memory()
        &&& self.ddeque() == v0.ddeque()
        &&& self.alloc_refs_ok()
        &&& writable(self.kp())
        &&& !self.typeq(PAIR_T, self.kp())
        &&& !same_cell(self.kp(), self.cur_sponsor())
        &&& !same_cell(self.kp(), self.memory())
        &&& !same_cell(self.ddeque(), self.cur_sponsor())
    }

    /// A pair that `self` holds as it was: valid, and in ROM or below the
    /// top of the heap.
    pub open spec fn kept_pair(self, c: Any) -> bool {
        &&& valid(c)
        &&& self.typeq(PAIR_T, c)
        &&& spec_is_ram(c) ==> self.in_heap(c)
    }

    /// Memory `w` keeps the pairs below the top of the heap of `self` but
    /// the one at `p`, the ROM, and those cells' place below the top.
    pub open spec fn keeps_pairs_but(self, w: CoreView, p: Any) -> bool {
        &&& w.rom == self.rom
        &&& forall|b: Any| readable(b) && self.in_heap(b) && self.cell(b).t == PAIR_T && !same_cell(b, p)
            ==> #[trigger] w.cell(b) == self.cell(b)
        &&& forall|b: Any| self.in_heap(b) ==> #[trigger] w.in_heap(b)
    }
}

/// Following `cdr` once more from where `j` steps led.
pub proof fn lemma_after_step(v: CoreView, p: Any, j: nat)
    ensures
        v.after(p, j + 1) == v.cdr(v.after(p, j)),
    decreases j,
{
    assert(v.after(p, j + 1) == v.after(v.cdr(p), j));
    if j > 0 {
        lemma_after_step(v, v.cdr(p), (j - 1) as nat);
    }
}

/// The `j`-th tail of a list is where `j` steps of `cdr` lead, and its
/// `j + 1`-th element is the `car` there.
pub proof fn lemma_after_nth(v: CoreView, p: Any, j: nat)
    requires
        v.wf(),
    ensures
        j >= 1 ==> v.nth_tail(p, j as int) == v.after(p, j),
        v.nth_item(p, (j + 1) as int) == v.car(v.after(p, j)),
    decreases j,
{
    if j >= 1 {
        lemma_after_nth(v, v.cdr(p), (j - 1) as nat);
        if !v.typeq(PAIR_T, p) {
            lemma_after_undef(v, (j - 1) as nat);
        }
    }
}

/// Nothing follows `UNDEF`.
pub proof fn lemma_after_undef(v: CoreView, j: nat)
    requires
        v.wf(),
    ensures
        v.after(UNDEF, j) == UNDEF,
        !v.typeq(PAIR_T, UNDEF),
    decreases j,
{
    if j > 0 {
        lemma_after_undef(v, (j - 1) as nat);
    }
}

/// A cell below the top of the heap is not the one at or above the top.
pub proof fn lemma_fresh_apart(u: CoreView, b: Any, q: Any)
    requires
        u.in_heap(b),
        spec_is_ram(q),
        !u.in_heap(q),
    ensures
        !same_cell(b, q),
{
}

/// A pair of `v0` (in ROM, or below `v0`'s top of the heap) reads the same
/// after list work.
pub proof fn lemma_work_reads(v0: CoreView, u: CoreView, c: Any)
    requires
        v0.wf(),
        u.work_from(v0),
        valid(c),
        v0.typeq(PAIR_T, c),
        spec_is_ram(c) ==> v0.in_heap(c),
    ensures
        u.cell(c) == v0.cell(c),
        u.typeq(PAIR_T, c),
        u.car(c) == v0.car(c),
        u.cdr(c) == v0.cdr(c),
        valid(v0.cell(c).x),
        valid(v0.cell(c).y),
{
    reveal(CoreView::work_from);
    lemma_cell_fields_valid(v0, c);
}

/// Popping a stack whose top pair is one of `v0`'s: the result is that
/// pair's `car`, the stack becomes its `cdr`, and only the continuation's
/// cell is written.
#[verifier::spinoff_prover]
#[verifier::rlimit(80)]
pub proof fn lemma_work_pop(v0: CoreView, u: CoreView)
    requires
        v0.wf(),
        u.work_from(v0),
        valid(u.sp()),
        v0.typeq(PAIR_T, u.sp()),
        spec_is_ram(u.sp()) ==> v0.in_heap(u.sp()),
    ensures
        ({
            let (r, w) = u.pop_step();
            &&& r == Ok::<Any, Error>(v0.car(u.sp()))
            &&& w.work_from(v0)
            &&& w.sp() == v0.cdr(u.sp())
            &&& valid(w.sp())
            &&& valid(v0.car(u.sp()))
            &&& w.ram_top() == u.ram_top()
            &&& u.keeps_pairs(w)
            &&& forall|b: Any| readable(b) && !same_cell(b, u.kp()) ==> #[trigger] w.cell(b) == u.cell(b)
        }),
{
    reveal(CoreView::work_from);
    let sp = u.sp();
    lemma_work_reads(v0, u, sp);
    let c = u.cdr(sp);
    lemma_set_sp_keeps_alloc(u, c, mk(PAIR_T, UNDEF, UNDEF, UNDEF));
    let w = u.set_sp_state(c);
    assert(u.pop_step() == (Ok::<Any, Error>(u.car(sp)), w));
    crate::value::lemma_ram_ptr(u.phase(), 0);
    assert(w.ram_top() == u.ram_top());
    assert forall|b: Any| readable(b) && v0.in_heap(b) && v0.cell(b).t == PAIR_T implies #[trigger] w.cell(b) == v0.cell(b) by {
        assert(u.cell(b) == v0.cell(b));
        if same_cell(b, u.kp()) {
            assert(u.cell(b) == u.cell(u.kp()));
        }
    }
    assert(!w.typeq(PAIR_T, w.kp()));
    assert(w.cur_sponsor() == v0.cur_sponsor());
    assert(w.alloc_refs_ok());
    assert(w.rom == u.rom);
    assert forall|b: Any| v0.in_heap(b) implies #[trigger] w.in_heap(b) by {
        assert(u.in_heap(b));
    }
    assert(v0.keeps_pairs(w));
    assert forall|b: Any| readable(b) && u.in_heap(b) && u.cell(b).t == PAIR_T implies #[trigger] w.cell(b) == u.cell(b) by {
        if same_cell(b, u.kp()) {
            assert(u.cell(b) == u.cell(u.kp()));
        }
    }
    assert(u.keeps_pairs(w));
    assert(w.top_alloc());
    assert(w.work_from(v0));
}

/// Allocating a pair during list work: it lands at the top of the heap,
/// above every cell of `v0` and of `u`, and the work goes on.
pub proof fn lemma_work_cons(v0: CoreView, u: CoreView, x: Any, y: Any)
    requires
        u.work_from(v0),
        valid(x),
        valid(y),
        u.cons_step(x, y).0 is Ok,
    ensures
        ({
            let (r, w) = u.cons_step(x, y);
            let q = u.ram_top();
            &&& r == Ok::<Any, Error>(q)
            &&& w.work_from(v0)
            &&& u.keeps_pairs(w)
            &&& !u.in_heap(q)
            &&& !v0.in_heap(q)
            &&& w.in_heap(q)
            &&& writable(q)
            &&& w.cell(q) == mk(PAIR_T, x, y, UNDEF)
            &&& w.sp() == u.sp()
            &&& forall|b: Any| readable(b) && u.in_heap(b) && !same_cell(b, u.cur_sponsor()) && !same_cell(b, u.memory())
                ==> #[trigger] w.cell(b) == u.cell(b)
        }),
{
    reveal(CoreView::work_from);
    let init = mk(PAIR_T, x, y, UNDEF);
    lemma_cons_keeps_pairs(u, x, y);
    lemma_top_alloc(u, init, UNDEF, 0);
    u.lemma_alloc_cell(init, UNDEF);
    let w = u.alloc_state(init);
    let q = u.ram_top();
    crate::deque_laws::lemma_keeps_pairs_trans(v0, u, w);
    let kp = u.kp();
    let dq = u.ddeque();
    crate::value::lemma_ram_ptr(u.phase(), 1);
    assert(w.cell(dq) == u.cell(dq));
    assert(w.kp() == kp);
    assert(w.cell(kp) == u.cell(kp));
    let ep = u.ep();
    if spec_is_ram(ep) {
        assert(w.cell(ep) == u.cell(ep));
    }
    assert(w.ep() == ep);
    assert(w.cur_sponsor() == u.cur_sponsor()) by {
        if spec_is_ram(ep) {
            assert(w.cell(ep) == u.cell(ep));
        } else {
            assert(w.rom == u.rom);
        }
    }
}

/// Setting the `cdr` of a pair allocated during list work, above `v0`'s
/// top of the heap: it succeeds, writes that pair alone, and the work goes on.
pub proof fn lemma_work_set_cdr(v0: CoreView, u: CoreView, p: Any, y: Any)
    requires
        u.work_from(v0),
        writable(p),
        u.in_heap(p),
        !v0.in_heap(p),
        u.cell(p).t == PAIR_T,
        valid(y),
    ensures
        ({
            let (r, w) = u.try_set_cdr_step(p, y);
            &&& r is Ok
            &&& w.work_from(v0)
            &&& w.cell(p) == Quad { y: y, ..u.cell(p) }
            &&& forall|b: Any| readable(b) && !same_cell(b, p) ==> #[trigger] w.cell(b) == u.cell(b)
            &&& w.sp() == u.sp()
            &&& w.ram_top() == u.ram_top()
        }),
{
    reveal(CoreView::work_from);
    let q = Quad { y: y, ..u.cell(p) };
    lemma_cell_fields_valid(u, p);
    crate::cpu::lemma_valid_quad_at(p, q);
    u.lemma_set_cell_keeps_types(p, q);
    let w = u.set_cell(p, q);
    u.lemma_set_cell_same(p, q, p);
    assert forall|b: Any| readable(b) && !same_cell(b, p) implies #[trigger] w.cell(b) == u.cell(b) by {
        u.lemma_set_cell_other(p, q, b);
    }
    let kp = u.kp();
    let dq = u.ddeque();
    let ep = u.ep();
    let sp0 = u.cur_sponsor();
    let m = u.memory();
    crate::value::lemma_ram_ptr(u.phase(), 0);
    crate::value::lemma_ram_ptr(u.phase(), 1);
    assert(v0.in_heap(dq));
    lemma_fresh_apart(v0, dq, p);
    assert(w.cell(dq) == u.cell(dq));
    assert(v0.in_heap(kp));
    lemma_fresh_apart(v0, kp, p);
    assert(w.cell(kp) == u.cell(kp));
    if spec_is_ram(ep) {
        assert(v0.in_heap(ep));
        lemma_fresh_apart(v0, ep, p);
    }
    assert(w.cell(ep) == u.cell(ep));
    assert(w.cur_sponsor() == sp0);
    assert(w.cell(m) == u.cell(m));
    assert forall|b: Any| readable(b) && v0.in_heap(b) && v0.cell(b).t == PAIR_T implies #[trigger] w.cell(b) == v0.cell(b) by {
        lemma_fresh_apart(v0, b, p);
    }
}

/// Keeping pairs but one, composed with keeping them but one that lay at or
/// above the first memory's top of the heap.
pub proof fn lemma_but_trans(a: CoreView, b: CoreView, c: CoreView, p: Any, q: Any)
    requires
        a.keeps_pairs_but(b, p),
        b.keeps_pairs_but(c, q),
        forall|x: Any| a.in_heap(x) ==> !same_cell(x, q),
    ensures
        a.keeps_pairs_but(c, p),
{
    assert forall|x: Any| readable(x) && a.in_heap(x) && a.cell(x).t == PAIR_T && !same_cell(x, p)
        implies #[trigger] c.cell(x) == a.cell(x) by {
        assert(b.cell(x) == a.cell(x));
        assert(b.in_heap(x));
        assert(!same_cell(x, q));
    }
    assert forall|x: Any| a.in_heap(x) implies #[trigger] c.in_heap(x) by {
        assert(b.in_heap(x));
    }
}

/// Keeping pairs, then keeping them but one.
pub proof fn lemma_keeps_then_but(a: CoreView, b: CoreView, c: CoreView, p: Any)
    requires
        a.keeps_pairs(b),
        b.keeps_pairs_but(c, p),
    ensures
        a.keeps_pairs_but(c, p),
{
    assert forall|x: Any| readable(x) && a.in_heap(x) && a.cell(x).t == PAIR_T && !same_cell(x, p)
        implies #[trigger] c.cell(x) == a.cell(x) by {
        assert(b.cell(x) == a.cell(x));
        assert(b.in_heap(x));
    }
    assert forall|x: Any| a.in_heap(x) implies #[trigger] c.in_heap(x) by {
        assert(b.in_heap(x));
    }
}

/// Allocating a pair for `x` and linking it after pair `p`, which list
/// work allocated: both succeed once the allocation does, and only `p` of
/// the pairs below the top of the heap changes, in its `cdr`.
#[verifier::spinoff_prover]
#[verifier::rlimit(60)]
pub proof fn lemma_link(v0: CoreView, u: CoreView, p: Any, x: Any)
    requires
        u.work_from(v0),
        writable(p),
        u.in_heap(p),
        !v0.in_heap(p),
        u.cell(p).t == PAIR_T,
        valid(x),
        u.cons_step(x, NIL).0 is Ok,
    ensures
        ({
            let q = u.ram_top();
            let (r2, u2) = u.cons_step(x, NIL);
            let (r3, u3) = u2.try_set_cdr_step(p, q);
            &&& r2 == Ok::<Any, Error>(q)
            &&& r3 is Ok
            &&& u3.work_from(v0)
            &&& u3.sp() == u.sp()
            &&& u3.cell(p) == Quad { y: q, ..u.cell(p) }
            &&& u3.cell(q) == mk(PAIR_T, x, NIL, UNDEF)
            &&& writable(q)
            &&& u3.in_heap(q)
            &&& !v0.in_heap(q)
            &&& !u.in_heap(q)
            &&& u.keeps_pairs_but(u3, p)
            &&& forall|b: Any| u.in_heap(b) ==> !same_cell(b, q)
        }),
{
    reveal(CoreView::work_from);
    let q = u.ram_top();
    lemma_work_cons(v0, u, x, NIL);
    let u2 = u.cons_step(x, NIL).1;
    assert(u2.cell(p) == u.cell(p));
    lemma_work_set_cdr(v0, u2, p, q);
    let u3 = u2.try_set_cdr_step(p, q).1;
    assert forall|b: Any| u.in_heap(b) implies !same_cell(b, q) by {
        lemma_fresh_apart(u, b, q);
    }
    lemma_fresh_apart(u, p, q);
    assert(u3.cell(q) == u2.cell(q));
    assert forall|b: Any| readable(b) && u.in_heap(b) && u.cell(b).t == PAIR_T && !same_cell(b, p)
        implies #[trigger] u3.cell(b) == u.cell(b) by {
        assert(u2.cell(b) == u.cell(b));
    }
    assert forall|b: Any| u.in_heap(b) implies #[trigger] u3.in_heap(b) by {
        assert(u2.in_heap(b));
    }
}

/// One round of the loop of `VM_PAIR`: pop the next item of `v0`'s stack
/// and link a new pair holding it after pair `p`; the loop goes on from
/// there.
#[verifier::spinoff_prover]
#[verifier::rlimit(60)]
pub proof fn lemma_pairs_round(v0: CoreView, u: CoreView, p: Any, k: int, j: nat)
    requires
        u.work_from(v0),
        k > 1,
        u.sp() == v0.after(v0.sp(), j),
        v0.kept_pair(v0.after(v0.sp(), j)),
        writable(p),
        u.in_heap(p),
        !v0.in_heap(p),
        u.cell(p).t == PAIR_T,
    ensures
        ({
            let u1 = u.pop_step().1;
            let h = v0.car(v0.after(v0.sp(), j));
            let q = u1.ram_top();
            let u2 = u1.cons_step(h, NIL).1;
            let u3 = u2.try_set_cdr_step(p, q).1;
            &&& !(u1.cons_step(h, NIL).0 is Ok) ==> u.pairs_loop(p, k).0 is Err
            &&& u1.cons_step(h, NIL).0 is Ok ==> {
                &&& u.pairs_loop(p, k) == u3.pairs_loop(q, k - 1)
                &&& u3.work_from(v0)
                &&& u3.sp() == v0.after(v0.sp(), j + 1)
                &&& u3.cell(p) == Quad { y: q, ..u.cell(p) }
                &&& u3.cell(q) == mk(PAIR_T, h, NIL, UNDEF)
                &&& writable(q)
                &&& u3.in_heap(q)
                &&& !v0.in_heap(q)
                &&& !u.in_heap(q)
                &&& u.keeps_pairs_but(u3, p)
                &&& forall|b: Any| u.in_heap(b) ==> !same_cell(b, q)
            }
        }),
{
    reveal(CoreView::work_from);
    let s0 = v0.sp();
    let pos = v0.after(s0, j);
    lemma_work_pop(v0, u);
    let (r1, u1) = u.pop_step();
    let h = v0.car(pos);
    lemma_after_step(v0, s0, j);
    if u1.cons_step(h, NIL).0 is Ok {
        assert(u1.cell(p) == u.cell(p)) by {
            if same_cell(p, u.kp()) {
                assert(u.cell(p) == u.cell(u.kp()));
            }
        }
        lemma_link(v0, u1, p, h);
        let q = u1.ram_top();
        let u3 = u1.cons_step(h, NIL).1.try_set_cdr_step(p, q).1;
        lemma_keeps_then_but(u, u1, u3, p);
        assert forall|x: Any| u.in_heap(x) implies !same_cell(x, q) by {
            assert(u1.in_heap(x));
        }
    }
}

/// The loop of `VM_PAIR`, from the stack `j` steps down `v0`'s stack: it
/// pops the next `k - 1` items and links a new pair for each after pair
/// `p`, in order; `ps` are `p` and those pairs.
#[verifier::spinoff_prover]
#[verifier::rlimit(80)]
pub proof fn lemma_pairs_loop(v0: CoreView, u: CoreView, p: Any, k: int, j: nat) -> (ps: Seq<Any>)
    requires
        u.work_from(v0),
        k >= 1,
        j >= 1,
        u.sp() == v0.after(v0.sp(), j),
        forall|i: nat| j <= i < j + k - 1 ==> v0.kept_pair(#[trigger] v0.after(v0.sp(), i)),
        writable(p),
        u.in_heap(p),
        !v0.in_heap(p),
        u.cell(p).t == PAIR_T,
    ensures
        ({
            let (r, w) = u.pairs_loop(p, k);
            r is Ok ==> {
                &&& ps.len() == k
                &&& ps[0] == p
                &&& r == Ok::<Any, Error>(ps[k - 1])
                &&& w.work_from(v0)
                &&& w.sp() == v0.after(v0.sp(), (j + k - 1) as nat)
                &&& forall|i: int| 0 <= i < k ==> writable(#[trigger] ps[i]) && w.in_heap(ps[i])
                    && !v0.in_heap(ps[i]) && w.cell(ps[i]).t == PAIR_T
                &&& forall|i: int, i2: int| 0 <= i < i2 < k ==> !same_cell(#[trigger] ps[i], #[trigger] ps[i2])
                &&& forall|i: int| 1 <= i < k ==> !u.in_heap(#[trigger] ps[i])
                &&& forall|i: int| 0 <= i < k - 1 ==> #[trigger] w.cell(ps[i]).y == ps[i + 1]
                &&& forall|i: int| 1 <= i < k ==> #[trigger] w.cell(ps[i]).x
                    == v0.car(v0.after(v0.sp(), (j + i - 1) as nat))
                &&& w.cell(p).x == u.cell(p).x
                &&& k == 1 ==> w == u
                &&& u.keeps_pairs_but(w, p)
            }
        }),
    decreases k,
{
    if k <= 1 {
        seq![p]
    } else {
        let s0 = v0.sp();
        assert(v0.kept_pair(v0.after(s0, j)));
        lemma_pairs_round(v0, u, p, k, j);
        let u1 = u.pop_step().1;
        let h = v0.car(v0.after(s0, j));
        if !(u1.cons_step(h, NIL).0 is Ok) {
            seq![p]
        } else {
            let q = u1.ram_top();
            let u3 = u1.cons_step(h, NIL).1.try_set_cdr_step(p, q).1;
            assert forall|i: nat| j + 1 <= i < (j + 1) + (k - 1) - 1 implies v0.kept_pair(#[trigger] v0.after(s0, i)) by {
            }
            let ps2 = lemma_pairs_loop(v0, u3, q, k - 1, j + 1);
            let (r, w) = u3.pairs_loop(q, k - 1);
            if r is Ok {
                lemma_glue(v0, u, u3, w, p, q, k, s0, (j - 1) as nat, ps2);
            }
            seq![p] + ps2
        }
    }
}

/// Pairs `ps` linked one after another by their `cdr`: the list from the
/// first holds their `car`s in order and ends in the last one's `cdr`.
pub proof fn lemma_chain(z: CoreView, ps: Seq<Any>)
    requires
        ps.len() >= 1,
        forall|i: int| 0 <= i < ps.len() ==> writable(#[trigger] ps[i]) && z.cell(ps[i]).t == PAIR_T,
        forall|i: int| 0 <= i < ps.len() - 1 ==> #[trigger] z.cell(ps[i]).y == ps[i + 1],
    ensures
        forall|i: int| 1 <= i <= ps.len() ==> #[trigger] z.nth_item(ps[0], i) == z.cell(ps[i - 1]).x,
        z.nth_tail(ps[0], ps.len() as int) == z.cell(ps[ps.len() - 1]).y,
        z.nth_item(ps[0], ps.len() + 1int) == z.car(z.cell(ps[ps.len() - 1]).y),
        z.nth_tail(ps[0], ps.len() + 1int) == z.cdr(z.cell(ps[ps.len() - 1]).y),
    decreases ps.len(),
{
    let p = ps[0];
    assert(writable(p) && z.cell(p).t == PAIR_T);
    assert(z.typeq(PAIR_T, p));
    if ps.len() > 1 {
        let rest = ps.drop_first();
        assert forall|i: int| 0 <= i < rest.len() implies writable(#[trigger] rest[i]) && z.cell(rest[i]).t == PAIR_T by {
            assert(rest[i] == ps[i + 1]);
        }
        assert forall|i: int| 0 <= i < rest.len() - 1 implies #[trigger] z.cell(rest[i]).y == rest[i + 1] by {
            assert(rest[i] == ps[i + 1]);
            assert(rest[i + 1] == ps[i + 2]);
        }
        lemma_chain(z, rest);
        assert(z.cell(p).y == rest[0]);
        assert forall|i: int| 1 <= i <= ps.len() implies #[trigger] z.nth_item(ps[0], i) == z.cell(ps[i - 1]).x by {
            if i > 1 {
                assert(z.nth_item(rest[0], i - 1) == z.cell(rest[i - 2]).x);
            }
        }
        assert(rest[rest.len() - 1] == ps[ps.len() - 1]);
        if rest.len() == 1 {
            assert(z.nth_tail(rest[0], 1) == z.cdr(rest[0]));
        }
        assert(z.nth_item(p, ps.len() + 1int) == z.nth_item(rest[0], rest.len() + 1int));
        assert(z.nth_tail(p, ps.len() + 1int) == z.nth_tail(rest[0], rest.len() + 1int));
        assert(z.nth_tail(p, ps.len() as int) == z.nth_tail(rest[0], rest.len() as int));
    } else {
        assert(z.nth_item(p, 2) == z.nth_item(z.cell(p).y, 1));
        assert(z.nth_tail(p, 2) == z.nth_tail(z.cell(p).y, 1));
    }
}

/// The first steps of a list walk are the pairs of its spine.
pub proof fn lemma_after_spine(v: CoreView, p: Any, i: nat)
    requires
        i < v.spine(p, WALK_MAX as nat).len(),
    ensures
        v.after(p, i) == v.spine(p, WALK_MAX as nat)[i as int],
    decreases i,
{
    let big = WALK_MAX as nat;
    lemma_spine_links(v, p, big);
    if i > 0 {
        lemma_after_spine(v, p, (i - 1) as nat);
        lemma_after_step(v, p, (i - 1) as nat);
        let sv = v.spine(p, big);
        assert(sv[(i - 1) + 1] == v.cell(sv[i - 1]).y);
        assert(v.typeq(PAIR_T, sv[i - 1]));
    }
}

/// The pairs of a kept list's spine are kept pairs.
pub proof fn lemma_kept_steps(v: CoreView, p: Any, n: nat)
    requires
        v.wf(),
        valid(p),
        v.list_kept(p, WALK_MAX as nat),
        n < v.items(p).len(),
    ensures
        forall|i: nat| i <= n ==> v.kept_pair(#[trigger] v.after(p, i)),
{
    let big = WALK_MAX as nat;
    lemma_spine_links(v, p, big);
    crate::lists::lemma_spine_valid(v, p, big);
    assert forall|i: nat| i <= n implies v.kept_pair(#[trigger] v.after(p, i)) by {
        lemma_after_spine(v, p, i);
        assert(valid(v.spine(p, big)[i as int]));
    }
}

/// The end of `VM_PAIR`: pop the item that ends the list, link it after
/// the last pair, and push the list; the pairs keep their elements and
/// links, and the new top pair holds the list in front of the rest of
/// `v0`'s stack.
#[verifier::spinoff_prover]
#[verifier::rlimit(80)]
pub proof fn lemma_pairs_end(v0: CoreView, u: CoreView, ps: Seq<Any>, n: int)
    requires
        u.work_from(v0),
        n >= 1,
        ps.len() == n,
        u.sp() == v0.after(v0.sp(), n as nat),
        v0.kept_pair(v0.after(v0.sp(), n as nat)),
        forall|i: int| 0 <= i < n ==> writable(#[trigger] ps[i]) && u.in_heap(ps[i])
            && !v0.in_heap(ps[i]) && u.cell(ps[i]).t == PAIR_T,
        forall|i: int, i2: int| 0 <= i < i2 < n ==> !same_cell(#[trigger] ps[i], #[trigger] ps[i2]),
        forall|i: int| 0 <= i < n - 1 ==> #[trigger] u.cell(ps[i]).y == ps[i + 1],
    ensures
        ({
            let (r, w) = u.pairs_rest(ps[n - 1], ps[0]);
            r is Ok ==> {
                &&& w.kp() == v0.kp()
                &&& w.typeq(PAIR_T, w.sp())
                &&& w.car(w.sp()) == ps[0]
                &&& w.cdr(w.sp()) == v0.after(v0.sp(), (n + 1) as nat)
                &&& forall|i: int| 0 <= i < n ==> writable(#[trigger] ps[i]) && w.cell(ps[i]).t == PAIR_T
                    && w.cell(ps[i]).x == u.cell(ps[i]).x
                &&& forall|i: int| 0 <= i < n - 1 ==> #[trigger] w.cell(ps[i]).y == ps[i + 1]
                &&& w.cell(ps[n - 1]).y == v0.car(v0.after(v0.sp(), n as nat))
                &&& v0.keeps_pairs(w)
            }
        }),
{
    reveal(CoreView::work_from);
    let s0 = v0.sp();
    let last = ps[n - 1];
    let lst = ps[0];
    let kp = v0.kp();
    assert(writable(last) && u.in_heap(last) && !v0.in_heap(last) && u.cell(last).t == PAIR_T);
    lemma_work_pop(v0, u);
    let (r4, v4) = u.pop_step();
    let t = v0.car(v0.after(s0, n as nat));
    lemma_after_step(v0, s0, n as nat);
    assert(v0.in_heap(kp));
    assert forall|i: int| 0 <= i < n implies #[trigger] v4.cell(ps[i]) == u.cell(ps[i]) by {
        assert(writable(ps[i]) && !v0.in_heap(ps[i]));
        lemma_fresh_apart(v0, kp, ps[i]);
    }
    lemma_work_set_cdr(v0, v4, last, t);
    let v5 = v4.try_set_cdr_step(last, t).1;
    assert(u.pairs_rest(last, lst) == v5.push_step(lst));
    if v5.push_step(lst).0 is Ok {
        reveal(CoreView::work_from);
        assert(valid(lst));
        lemma_work_cons(v0, v5, lst, v5.sp());
        let c = v5.ram_top();
        let v6 = v5.cons_step(lst, v5.sp()).1;
        lemma_set_sp_keeps_alloc(v6, c, mk(PAIR_T, UNDEF, UNDEF, UNDEF));
        let w = v6.set_sp_state(c);
        lemma_set_sp_keeps_pairs(v0, v6, c);
        assert(v5.push_step(lst) == (Ok::<(), Error>(()), w));
        lemma_fresh_apart(v0, kp, c);
        assert(w.cell(c) == v6.cell(c));
        assert forall|i: int| 0 <= i < n implies #[trigger] w.cell(ps[i]) == v5.cell(ps[i]) by {
            assert(writable(ps[i]) && !v0.in_heap(ps[i]));
            lemma_fresh_apart(v0, kp, ps[i]);
            assert(v5.in_heap(ps[i]));
            assert(v5.cell(ps[i]).t == PAIR_T) by {
                if i != n - 1 {
                    assert(!same_cell(ps[i], last));
                }
            }
        }
        assert forall|i: int| 0 <= i < n - 1 implies #[trigger] w.cell(ps[i]).y == ps[i + 1] by {
            assert(!same_cell(ps[i], last));
        }
        assert forall|i: int| 0 <= i < n implies writable(#[trigger] ps[i]) && w.cell(ps[i]).t == PAIR_T
            && w.cell(ps[i]).x == u.cell(ps[i]).x by {
            if i != n - 1 {
                assert(!same_cell(ps[i], last));
            }
        }
    }
}

/// The premises of list work on the current stack: the stack lies in kept
/// pairs, allocation comes from the top of the heap and spares the
/// continuation and the queue descriptor.
pub open spec fn stack_work_ready(v: CoreView) -> bool {
    &&& v.wf()
    &&& v.top_alloc()
    &&& v.alloc_refs_ok()
    &&& v.stack_ok()
    &&& v.list_kept(v.sp(), WALK_MAX as nat)
    &&& !same_cell(v.kp(), v.cur_sponsor())
    &&& !same_cell(v.kp(), v.memory())
    &&& !same_cell(v.ddeque(), v.cur_sponsor())
}

/// A ready state with a non-empty stack, or with a current event, is
/// where list work starts.
pub proof fn lemma_work_start(v: CoreView)
    requires
        stack_work_ready(v),
        v.stack_items().len() > 0 || spec_is_ram(v.ep()) || writable(v.kp()),
    ensures
        v.work_from(v),
        valid(v.sp()),
{
    reveal(CoreView::work_from);
    let big = WALK_MAX as nat;
    let kp = v.kp();
    lemma_spine_links(v, v.sp(), big);
    assert(spec_is_ram(kp)) by {
        if !spec_is_ram(kp) {
            lemma_after_undef(v, 0);
        }
    }
    crate::value::lemma_ram_ptr(v.phase(), 1);
    lemma_cell_fields_valid(v, v.ddeque());
    assert(valid(kp));
    lemma_cell_fields_valid(v, kp);
    assert(v.keeps_pairs(v));
}

/// `VM_PAIR`'s work on a stack of more than `n` items: the new top pair
/// holds a list of the top `n` items, in order, that ends in the next
/// item, in front of the rest of the stack.
#[verifier::spinoff_prover]
#[verifier::rlimit(80)]
pub proof fn lemma_stack_pairs(v: CoreView, n: int)
    requires
        stack_work_ready(v),
        0 < n < 64,
        n < v.stack_items().len(),
    ensures
        ({
            let sp = v.sp();
            let (r, w) = v.stack_pairs_step(n);
            r is Ok ==> {
                &&& w.kp() == v.kp()
                &&& w.typeq(PAIR_T, w.sp())
                &&& forall|i: int| 1 <= i <= n ==> #[trigger] w.nth_item(w.car(w.sp()), i)
                    == v.car(v.after(sp, (i - 1) as nat))
                &&& w.nth_tail(w.car(w.sp()), n) == v.car(v.after(sp, n as nat))
                &&& w.cdr(w.sp()) == v.after(sp, (n + 1) as nat)
                &&& v.keeps_pairs(w)
            }
        }),
{
    let sp = v.sp();
    lemma_work_start(v);
    lemma_kept_steps(v, sp, n as nat);
    assert(v.kept_pair(v.after(sp, 0)));
    lemma_work_pop(v, v);
    let v1 = v.pop_step().1;
    let h = v.car(sp);
    if v1.cons_step(h, NIL).0 is Ok {
        lemma_work_cons(v, v1, h, NIL);
        let lst = v1.ram_top();
        let v2 = v1.cons_step(h, NIL).1;
        assert(v.stack_pairs_step(n) == v2.pairs_finish(lst, n, lst));
        assert(v1.sp() == v.after(sp, 1)) by {
            lemma_after_step(v, sp, 0);
        }
        let ps = lemma_pairs_loop(v, v2, lst, n, 1);
        let (r3, v3) = v2.pairs_loop(lst, n);
        if r3 is Ok {
            assert(v.kept_pair(v.after(sp, n as nat)));
            lemma_pairs_end(v, v3, ps, n);
            let w = v3.pairs_rest(ps[n - 1], lst).1;
            if v3.pairs_rest(ps[n - 1], lst).0 is Ok {
                let l = w.car(w.sp());
                lemma_chain(w, ps);
                assert forall|i: int| 1 <= i <= n implies #[trigger] w.nth_item(l, i)
                    == v.car(v.after(sp, (i - 1) as nat)) by {
                    assert(w.nth_item(ps[0], i) == w.cell(ps[i - 1]).x);
                    if i == 1 {
                        assert(v3.cell(lst).x == v2.cell(lst).x);
                    } else {
                        assert(v3.cell(ps[i - 1]).x == v.car(v.after(sp, (1 + (i - 1) - 1) as nat)));
                    }
                }
            }
        }
    }
}

/// `VM_PAIR n` (with `0 < n < 64`) on a stack of items `s` with more than
/// `n` of them: the new top of the stack is a list whose elements are
/// `s[0]`, ..., `s[n - 1]`, in order, and whose `n`-th tail is `s[n]`;
/// below it lies the stack as it was after its top `n + 1` items. Shown
/// when the pairs it allocates come from the top of the heap.
pub proof fn law_perform_pair(v: CoreView, ip: Any)
    requires
        stack_work_ready(v),
        spec_is_ptr(ip),
        readable(ip),
        v.cell(ip).t == INSTR_T,
        v.cell(ip).x == VM_PAIR,
        spec_is_fix(v.cell(ip).y),
        0 < fix_val(v.cell(ip).y) < 64,
        fix_val(v.cell(ip).y) < v.stack_items().len(),
    ensures
        ({
            let n = fix_val(v.cell(ip).y);
            let s = v.stack_items();
            let (r, w) = v.perform_step(ip);
            r is Ok ==> {
                &&& r == Ok::<Any, Error>(v.cell(ip).z)
                &&& w.kp() == v.kp()
                &&& w.typeq(PAIR_T, w.sp())
                &&& forall|i: int| 1 <= i <= n ==> #[trigger] w.nth_item(w.car(w.sp()), i) == s[i - 1]
                &&& w.nth_tail(w.car(w.sp()), n) == s[n]
                &&& w.cdr(w.sp()) == v.nth_tail(v.sp(), n + 1)
                &&& w.items(w.cdr(w.sp())) == s.subrange(n + 1, s.len() as int)
                &&& v.keeps_pairs(w)
            }
        }),
{
    let n = fix_val(v.cell(ip).y);
    let sp = v.sp();
    let s = v.stack_items();
    assert(v.perform_step(ip) == crate::interp::then_next(v.stack_pairs_step(n), v.cell(ip).z));
    lemma_stack_pairs(v, n);
    let w = v.stack_pairs_step(n).1;
    assert forall|i: int| 1 <= i <= n + 1 implies #[trigger] v.car(v.after(sp, (i - 1) as nat)) == s[i - 1] by {
        lemma_after_nth(v, sp, (i - 1) as nat);
        crate::op_laws::lemma_nth_item_items(v, sp, i);
    }
    lemma_after_nth(v, sp, (n + 1) as nat);
    assert(v.car(v.after(sp, n as nat)) == s[n]);
    if v.perform_step(ip).0 is Ok {
        lemma_stack_below(v, w, (n + 1) as nat);
    }
}

/// Putting pair `p`, linked to `q`, in front of pairs `ps2` built from
/// `q` on: the elements of the pairs after `p` are those of list `b` from
/// its `o + 1`-th step on.
#[verifier::spinoff_prover]
#[verifier::rlimit(80)]
proof fn lemma_glue(v0: CoreView, u: CoreView, u3: CoreView, w: CoreView, p: Any, q: Any, k: int,
    b: Any, o: nat, ps2: Seq<Any>)
    requires
        k > 1,
        u3.cell(p) == (Quad { y: q, ..u.cell(p) }),
        u3.cell(q).x == v0.car(v0.after(b, o + 1)),
        writable(p),
        u.in_heap(p),
        !v0.in_heap(p),
        u.cell(p).t == PAIR_T,
        u.keeps_pairs_but(u3, p),
        forall|x: Any| u.in_heap(x) ==> !same_cell(x, q),
        ps2.len() == k - 1,
        ps2[0] == q,
        forall|i: int| 0 <= i < k - 1 ==> writable(#[trigger] ps2[i]) && w.in_heap(ps2[i])
            && !v0.in_heap(ps2[i]) && w.cell(ps2[i]).t == PAIR_T,
        forall|i: int, i2: int| 0 <= i < i2 < k - 1 ==> !same_cell(#[trigger] ps2[i], #[trigger] ps2[i2]),
        forall|i: int| 1 <= i < k - 1 ==> !u3.in_heap(#[trigger] ps2[i]),
        forall|i: int| 0 <= i < k - 2 ==> #[trigger] w.cell(ps2[i]).y == ps2[i + 1],
        forall|i: int| 1 <= i < k - 1 ==> #[trigger] w.cell(ps2[i]).x == v0.car(v0.after(b, (o + 1 + i) as nat)),
        w.cell(q).x == u3.cell(q).x,
        u3.keeps_pairs_but(w, q),
    ensures
        ({
            let ps = seq![p] + ps2;
            &&& ps.len() == k
            &&& ps[0] == p
            &&& ps[k - 1] == ps2[k - 2]
            &&& forall|i: int| 0 <= i < k ==> writable(#[trigger] ps[i]) && w.in_heap(ps[i])
                && !v0.in_heap(ps[i]) && w.cell(ps[i]).t == PAIR_T
            &&& forall|i: int, i2: int| 0 <= i < i2 < k ==> !same_cell(#[trigger] ps[i], #[trigger] ps[i2])
            &&& forall|i: int| 1 <= i < k ==> !u.in_heap(#[trigger] ps[i])
            &&& forall|i: int| 0 <= i < k - 1 ==> #[trigger] w.cell(ps[i]).y == ps[i + 1]
            &&& forall|i: int| 1 <= i < k ==> #[trigger] w.cell(ps[i]).x == v0.car(v0.after(b, (o + i) as nat))
            &&& w.cell(p).x == u.cell(p).x
            &&& u.keeps_pairs_but(w, p)
        }),
{
    let ps = seq![p] + ps2;
    lemma_but_trans(u, u3, w, p, q);
    assert(u3.in_heap(p));
    lemma_fresh_apart(u, p, q);
    assert(w.cell(p) == u3.cell(p));
    assert forall|i: int| 0 <= i < k - 1 implies #[trigger] w.cell(ps[i]).y == ps[i + 1] by {
        if i > 0 {
            assert(ps[i] == ps2[i - 1]);
            assert(ps[i + 1] == ps2[i]);
        }
    }
    assert forall|i: int| 1 <= i < k implies #[trigger] w.cell(ps[i]).x == v0.car(v0.after(b, (o + i) as nat)) by {
        assert(ps[i] == ps2[i - 1]);
        if i > 1 {
            assert(w.cell(ps2[i - 1]).x == v0.car(v0.after(b, (o + 1 + (i - 1)) as nat)));
        }
    }
    assert forall|i: int| 0 <= i < k implies writable(#[trigger] ps[i]) && w.in_heap(ps[i])
        && !v0.in_heap(ps[i]) && w.cell(ps[i]).t == PAIR_T by {
        if i > 0 {
            assert(ps[i] == ps2[i - 1]);
        }
    }
    assert forall|i: int| 1 <= i < k implies !u.in_heap(#[trigger] ps[i]) by {
        assert(ps[i] == ps2[i - 1]);
        if i > 1 {
            assert(!u3.in_heap(ps2[i - 1]));
            assert(u.in_heap(ps2[i - 1]) ==> u3.in_heap(ps2[i - 1]));
        }
    }
    assert forall|i: int, i2: int| 0 <= i < i2 < k implies !same_cell(#[trigger] ps[i], #[trigger] ps[i2]) by {
        assert(ps[i2] == ps2[i2 - 1]);
        if i == 0 {
            assert(!u.in_heap(ps[i2])) by {
                if i2 > 1 {
                    assert(!u3.in_heap(ps2[i2 - 1]));
                    assert(u.in_heap(ps2[i2 - 1]) ==> u3.in_heap(ps2[i2 - 1]));
                }
            }
            lemma_fresh_apart(u, p, ps[i2]);
        } else {
            assert(ps[i] == ps2[i - 1]);
        }
    }
}

/// One round of the loop of `VM_PART`: step to the rest of the list and
/// link a new pair holding its first element after pair `p`; the loop goes
/// on from there.
#[verifier::spinoff_prover]
#[verifier::rlimit(60)]
pub proof fn lemma_parts_round(v0: CoreView, u: CoreView, l: Any, p: Any, k: int, j: nat)
    requires
        u.work_from(v0),
        k > 1,
        v0.kept_pair(v0.after(l, j)),
        v0.kept_pair(v0.after(l, j + 1)),
        writable(p),
        u.in_heap(p),
        !v0.in_heap(p),
        u.cell(p).t == PAIR_T,
    ensures
        ({
            let s = v0.after(l, j);
            let s2 = v0.after(l, j + 1);
            let h = v0.car(s2);
            let q = u.ram_top();
            let u2 = u.cons_step(h, NIL).1;
            let u3 = u2.try_set_cdr_step(p, q).1;
            &&& !(u.cons_step(h, NIL).0 is Ok) ==> u.parts_loop(s, p, k).0 is Err
            &&& u.cons_step(h, NIL).0 is Ok ==> {
                &&& u.parts_loop(s, p, k) == u3.parts_loop(s2, q, k - 1)
                &&& u3.work_from(v0)
                &&& u3.sp() == u.sp()
                &&& u3.cell(p) == Quad { y: q, ..u.cell(p) }
                &&& u3.cell(q) == mk(PAIR_T, h, NIL, UNDEF)
                &&& writable(q)
                &&& u3.in_heap(q)
                &&& !v0.in_heap(q)
                &&& !u.in_heap(q)
                &&& u.keeps_pairs_but(u3, p)
                &&& forall|b: Any| u.in_heap(b) ==> !same_cell(b, q)
            }
        }),
{
    let s = v0.after(l, j);
    let s2 = v0.after(l, j + 1);
    reveal(CoreView::work_from);
    lemma_after_step(v0, l, j);
    lemma_work_reads(v0, u, s);
    lemma_work_reads(v0, u, s2);
    let h = v0.car(s2);
    if u.cons_step(h, NIL).0 is Ok {
        lemma_link(v0, u, p, h);
    }
}

/// The loop of `VM_PART`, from `j` steps down list `l`: it steps `k - 1`
/// times down the list and links a new pair for each element it reaches
/// after pair `p`, in order; `ps` are `p` and those pairs.
#[verifier::spinoff_prover]
#[verifier::rlimit(80)]
pub proof fn lemma_parts_loop(v0: CoreView, u: CoreView, l: Any, p: Any, k: int, j: nat) -> (ps: Seq<Any>)
    requires
        u.work_from(v0),
        k >= 1,
        forall|i: nat| j <= i < j + k ==> v0.kept_pair(#[trigger] v0.after(l, i)),
        writable(p),
        u.in_heap(p),
        !v0.in_heap(p),
        u.cell(p).t == PAIR_T,
    ensures
        ({
            let (r, w) = u.parts_loop(v0.after(l, j), p, k);
            r is Ok ==> {
                &&& ps.len() == k
                &&& ps[0] == p
                &&& r == Ok::<(Any, Any), Error>((v0.after(l, (j + k - 1) as nat), ps[k - 1]))
                &&& w.work_from(v0)
                &&& w.sp() == u.sp()
                &&& forall|i: int| 0 <= i < k ==> writable(#[trigger] ps[i]) && w.in_heap(ps[i])
                    && !v0.in_heap(ps[i]) && w.cell(ps[i]).t == PAIR_T
                &&& forall|i: int, i2: int| 0 <= i < i2 < k ==> !same_cell(#[trigger] ps[i], #[trigger] ps[i2])
                &&& forall|i: int| 1 <= i < k ==> !u.in_heap(#[trigger] ps[i])
                &&& forall|i: int| 0 <= i < k - 1 ==> #[trigger] w.cell(ps[i]).y == ps[i + 1]
                &&& forall|i: int| 1 <= i < k ==> #[trigger] w.cell(ps[i]).x == v0.car(v0.after(l, (j + i) as nat))
                &&& w.cell(p).x == u.cell(p).x
                &&& k == 1 ==> w == u
                &&& u.keeps_pairs_but(w, p)
            }
        }),
    decreases k,
{
    if k <= 1 {
        seq![p]
    } else {
        assert(v0.kept_pair(v0.after(l, j)));
        assert(v0.kept_pair(v0.after(l, j + 1)));
        lemma_parts_round(v0, u, l, p, k, j);
        let h = v0.car(v0.after(l, j + 1));
        if !(u.cons_step(h, NIL).0 is Ok) {
            seq![p]
        } else {
            let q = u.ram_top();
            let u3 = u.cons_step(h, NIL).1.try_set_cdr_step(p, q).1;
            assert forall|i: nat| j + 1 <= i < (j + 1) + (k - 1) implies v0.kept_pair(#[trigger] v0.after(l, i)) by {
            }
            let ps2 = lemma_parts_loop(v0, u3, l, q, k - 1, j + 1);
            let (r, w) = u3.parts_loop(v0.after(l, j + 1), q, k - 1);
            if r is Ok {
                lemma_glue(v0, u, u3, w, p, q, k, l, j, ps2);
            }
            seq![p] + ps2
        }
    }
}

/// The end of `VM_PART`: a new pair holds the rest of the list in front of
/// the stack below the list, it is linked after the last pair, and the
/// pairs become the stack.
#[verifier::spinoff_prover]
#[verifier::rlimit(80)]
pub proof fn lemma_parts_end(v0: CoreView, u: CoreView, l: Any, ps: Seq<Any>, n: int)
    requires
        u.work_from(v0),
        n >= 1,
        ps.len() == n,
        v0.kept_pair(v0.after(l, (n - 1) as nat)),
        valid(u.sp()),
        forall|i: int| 0 <= i < n ==> writable(#[trigger] ps[i]) && u.in_heap(ps[i])
            && !v0.in_heap(ps[i]) && u.cell(ps[i]).t == PAIR_T,
        forall|i: int, i2: int| 0 <= i < i2 < n ==> !same_cell(#[trigger] ps[i], #[trigger] ps[i2]),
        forall|i: int| 0 <= i < n - 1 ==> #[trigger] u.cell(ps[i]).y == ps[i + 1],
    ensures
        ({
            let (r, w) = u.parts_rest(v0.after(l, (n - 1) as nat), ps[n - 1], ps[0]);
            let t = w.cell(ps[n - 1]).y;
            r is Ok ==> {
                &&& w.kp() == v0.kp()
                &&& w.sp() == ps[0]
                &&& forall|i: int| 0 <= i < n ==> writable(#[trigger] ps[i]) && w.cell(ps[i]).t == PAIR_T
                    && w.cell(ps[i]).x == u.cell(ps[i]).x
                &&& forall|i: int| 0 <= i < n - 1 ==> #[trigger] w.cell(ps[i]).y == ps[i + 1]
                &&& w.typeq(PAIR_T, t)
                &&& w.car(t) == v0.after(l, n as nat)
                &&& w.cdr(t) == u.sp()
                &&& v0.keeps_pairs(w)
            }
        }),
{
    reveal(CoreView::work_from);
    let s = v0.after(l, (n - 1) as nat);
    let last = ps[n - 1];
    let lst = ps[0];
    let kp = v0.kp();
    assert(writable(last) && u.in_heap(last) && !v0.in_heap(last) && u.cell(last).t == PAIR_T);
    lemma_work_reads(v0, u, s);
    lemma_after_step(v0, l, (n - 1) as nat);
    let rest = u.cdr(s);
    assert(rest == v0.after(l, n as nat));
    if u.cons_step(rest, u.sp()).0 is Ok {
        lemma_work_cons(v0, u, rest, u.sp());
        let t = u.ram_top();
        let v1 = u.cons_step(rest, u.sp()).1;
        assert(v1.cell(last) == u.cell(last));
        lemma_work_set_cdr(v0, v1, last, t);
        let v2 = v1.try_set_cdr_step(last, t).1;
        assert(writable(lst));
        lemma_set_sp_keeps_alloc(v2, lst, mk(PAIR_T, UNDEF, UNDEF, UNDEF));
        let w = v2.set_sp_state(lst);
        lemma_set_sp_keeps_pairs(v0, v2, lst);
        assert(u.parts_rest(s, last, lst) == (Ok::<(), Error>(()), w));
        assert(v0.in_heap(kp));
        lemma_fresh_apart(v0, kp, t);
        lemma_fresh_apart(u, last, t);
        assert(w.cell(t) == v1.cell(t));
        assert(w.cell(last).y == t) by {
            lemma_fresh_apart(v0, kp, last);
        }
        assert forall|i: int| 0 <= i < n implies #[trigger] w.cell(ps[i]) == v1.cell(ps[i])
            || i == n - 1 by {
            assert(writable(ps[i]) && !v0.in_heap(ps[i]));
            lemma_fresh_apart(v0, kp, ps[i]);
            if i != n - 1 {
                assert(!same_cell(ps[i], last));
            }
        }
        assert forall|i: int| 0 <= i < n implies #[trigger] v1.cell(ps[i]) == u.cell(ps[i]) by {
            assert(u.in_heap(ps[i]) && u.cell(ps[i]).t == PAIR_T && writable(ps[i]));
        }
        assert forall|i: int| 0 <= i < n - 1 implies #[trigger] w.cell(ps[i]).y == ps[i + 1] by {
            assert(w.cell(ps[i]) == v1.cell(ps[i]) || i == n - 1);
        }
        assert forall|i: int| 0 <= i < n implies writable(#[trigger] ps[i]) && w.cell(ps[i]).t == PAIR_T
            && w.cell(ps[i]).x == u.cell(ps[i]).x by {
            assert(w.cell(ps[i]) == v1.cell(ps[i]) || i == n - 1);
            assert(v1.cell(ps[i]) == u.cell(ps[i]));
            if i == n - 1 {
                lemma_fresh_apart(v0, kp, last);
            }
        }
    }
}

/// `VM_PART`'s work on a list `l` on top of the stack whose first `n`
/// steps are kept pairs: the stack becomes the first `n` elements of `l`,
/// in order, then the rest of `l`, then the stack below `l`.
#[verifier::spinoff_prover]
#[verifier::rlimit(80)]
pub proof fn lemma_stack_parts(v: CoreView, n: int)
    requires
        stack_work_ready(v),
        0 < n < 64,
        v.stack_items().len() > 0,
        forall|i: nat| i < n ==> v.kept_pair(#[trigger] v.after(v.car(v.sp()), i)),
    ensures
        ({
            let l = v.car(v.sp());
            let (r, w) = v.stack_parts_step(n);
            r is Ok ==> {
                &&& w.kp() == v.kp()
                &&& forall|i: int| 1 <= i <= n ==> #[trigger] w.nth_item(w.sp(), i)
                    == v.car(v.after(l, (i - 1) as nat))
                &&& w.nth_item(w.sp(), n + 1) == v.after(l, n as nat)
                &&& w.nth_tail(w.sp(), n + 1) == v.cdr(v.sp())
                &&& v.keeps_pairs(w)
            }
        }),
{
    let sp = v.sp();
    let l = v.car(sp);
    lemma_work_start(v);
    lemma_kept_steps(v, sp, 0);
    assert(v.kept_pair(v.after(sp, 0)));
    lemma_work_pop(v, v);
    let v1 = v.pop_step().1;
    assert(v.kept_pair(v.after(l, 0)));
    assert(v.after(l, 0) == l);
    lemma_work_reads(v, v1, l);
    let h = v.car(l);
    if v1.cons_step(h, NIL).0 is Ok {
        lemma_work_cons(v, v1, h, NIL);
        let lst = v1.ram_top();
        let v2 = v1.cons_step(h, NIL).1;
        assert(v.stack_parts_step(n) == v2.parts_finish(l, lst, n, lst));
        let ps = lemma_parts_loop(v, v2, l, lst, n, 0);
        let (r3, v3) = v2.parts_loop(l, lst, n);
        if r3 is Ok {
            assert(v.kept_pair(v.after(l, (n - 1) as nat)));
            lemma_parts_end(v, v3, l, ps, n);
            let w = v3.parts_rest(v.after(l, (n - 1) as nat), ps[n - 1], lst).1;
            if v3.parts_rest(v.after(l, (n - 1) as nat), ps[n - 1], lst).0 is Ok {
                lemma_chain(w, ps);
                assert forall|i: int| 1 <= i <= n implies #[trigger] w.nth_item(w.sp(), i)
                    == v.car(v.after(l, (i - 1) as nat)) by {
                    assert(w.nth_item(ps[0], i) == w.cell(ps[i - 1]).x);
                    if i == 1 {
                        assert(v3.cell(lst).x == v2.cell(lst).x);
                    } else {
                        assert(v3.cell(ps[i - 1]).x == v.car(v.after(l, (0 + (i - 1)) as nat)));
                    }
                }
            }
        }
    }
}

/// `VM_PART n` (with `0 < n < 64`) on a list `l` on top of the stack with
/// at least `n` pairs, each in ROM or below the top of the heap: the new
/// stack holds the first `n` elements of `l`, in order, then the tail of
/// `l` after its `n`-th pair, then the stack that lay below `l`. Shown
/// when the pairs it allocates come from the top of the heap.
#[verifier::spinoff_prover]
#[verifier::rlimit(60)]
pub proof fn law_perform_part(v: CoreView, ip: Any)
    requires
        stack_work_ready(v),
        spec_is_ptr(ip),
        readable(ip),
        v.cell(ip).t == INSTR_T,
        v.cell(ip).x == VM_PART,
        spec_is_fix(v.cell(ip).y),
        0 < fix_val(v.cell(ip).y) < 64,
        v.stack_items().len() > 0,
        forall|i: nat| i < fix_val(v.cell(ip).y) ==> v.kept_pair(#[trigger] v.after(v.stack_items()[0], i)),
    ensures
        ({
            let n = fix_val(v.cell(ip).y);
            let l = v.stack_items()[0];
            let (r, w) = v.perform_step(ip);
            r is Ok ==> {
                &&& r == Ok::<Any, Error>(v.cell(ip).z)
                &&& w.kp() == v.kp()
                &&& forall|i: int| 1 <= i <= n ==> #[trigger] w.nth_item(w.sp(), i) == v.nth_item(l, i)
                &&& w.nth_item(w.sp(), n + 1) == v.nth_tail(l, n)
                &&& w.nth_tail(w.sp(), n + 1) == v.cdr(v.sp())
                &&& w.items(w.nth_tail(w.sp(), n + 1)) == v.stack_items().drop_first()
                &&& v.keeps_pairs(w)
            }
        }),
{
    let n = fix_val(v.cell(ip).y);
    let sp = v.sp();
    let l = v.stack_items()[0];
    crate::op_laws::lemma_nth_item_items(v, sp, 1);
    assert(l == v.car(sp));
    assert(v.perform_step(ip) == crate::interp::then_next(v.stack_parts_step(n), v.cell(ip).z));
    lemma_stack_parts(v, n);
    assert forall|i: int| 1 <= i <= n implies #[trigger] v.car(v.after(l, (i - 1) as nat)) == v.nth_item(l, i) by {
        lemma_after_nth(v, l, (i - 1) as nat);
    }
    lemma_after_nth(v, l, n as nat);
    if v.perform_step(ip).0 is Ok {
        lemma_stack_below(v, v.stack_parts_step(n).1, 1);
    }
}

/// Rewriting the stack pointer after list work keeps `v0`'s pairs.
proof fn lemma_set_sp_keeps_pairs(v0: CoreView, u: CoreView, c: Any)
    requires
        u.work_from(v0),
        valid(c),
    ensures
        v0.keeps_pairs(u.set_sp_state(c)),
{
    reveal(CoreView::work_from);
    lemma_set_sp_keeps_alloc(u, c, mk(PAIR_T, UNDEF, UNDEF, UNDEF));
    let w = u.set_sp_state(c);
    crate::value::lemma_ram_ptr(u.phase(), 0);
    assert(w.ram_top() == u.ram_top());
    assert(w.rom == u.rom);
    assert forall|b: Any| readable(b) && v0.in_heap(b) && v0.cell(b).t == PAIR_T implies #[trigger] w.cell(b) == v0.cell(b) by {
        assert(u.cell(b) == v0.cell(b));
        if same_cell(b, u.kp()) {
            assert(u.cell(b) == u.cell(u.kp()));
        }
    }
    assert forall|b: Any| v0.in_heap(b) implies #[trigger] w.in_heap(b) by {
        assert(u.in_heap(b));
    }
}

/// The list `j` steps down a kept list is kept, and holds its items from
/// the `j`-th on, in any memory that keeps the pairs.
pub proof fn lemma_after_items(v: CoreView, w: CoreView, p: Any, j: nat)
    requires
        v.wf(),
        valid(p),
        v.list_kept(p, WALK_MAX as nat),
        j <= v.items(p).len(),
        v.keeps_pairs(w),
    ensures
        valid(v.after(p, j)),
        v.list_kept(v.after(p, j), WALK_MAX as nat),
        v.items(v.after(p, j)) == v.items(p).subrange(j as int, v.items(p).len() as int),
        w.items(v.after(p, j)) == v.items(p).subrange(j as int, v.items(p).len() as int),
    decreases j,
{
    let big = WALK_MAX as nat;
    if j > 0 {
        lemma_after_items(v, w, p, (j - 1) as nat);
        let c = v.after(p, (j - 1) as nat);
        lemma_after_step(v, p, (j - 1) as nat);
        lemma_spine_links(v, c, big);
        assert(v.items(c).len() > 0);
        assert(v.typeq(PAIR_T, c));
        crate::deque_laws::lemma_list_tail(v, c, big);
        assert(v.after(p, j) == v.cell(c).y);
        let its = v.items(p);
        assert(v.items(c) == seq![v.cell(c).x] + v.items(v.cell(c).y));
        assert(v.items(c) == its.subrange(j - 1, its.len() as int));
        assert(v.items(v.after(p, j)) =~= its.subrange(j as int, its.len() as int)) by {
            assert forall|i: int| 0 <= i < v.items(v.after(p, j)).len() implies
                #[trigger] v.items(v.after(p, j))[i] == its[j + i] by {
                assert(v.items(c)[i + 1] == v.items(v.cell(c).y)[i]);
            }
        }
    } else {
        assert(v.items(p).subrange(0, v.items(p).len() as int) =~= v.items(p));
    }
    crate::deque_laws::lemma_list_kept_frame(v, w, v.after(p, j), big);
}

/// The stack `j` steps down holds the stack's items from the `j`-th on, in
/// any memory that keeps the pairs.
proof fn lemma_stack_below(v: CoreView, w: CoreView, j: nat)
    requires
        stack_work_ready(v),
        j <= v.stack_items().len(),
        v.keeps_pairs(w),
    ensures
        w.items(v.after(v.sp(), j)) == v.stack_items().subrange(j as int, v.stack_items().len() as int),
        j == 1 ==> v.after(v.sp(), j) == v.cdr(v.sp()),
        j == 1 ==> w.items(v.cdr(v.sp())) == v.stack_items().drop_first(),
{
    let sp = v.sp();
    crate::lists::lemma_spine_valid(v, sp, WALK_MAX as nat);
    lemma_spine_links(v, sp, WALK_MAX as nat);
    assert(valid(sp)) by {
        if v.stack_items().len() == 0 {
            assert(v.spine(sp, WALK_MAX as nat).len() == 0);
        }
    }
    lemma_after_items(v, w, sp, j);
    assert(v.after(sp, 1) == v.after(v.cdr(sp), 0));
    assert(v.stack_items().drop_first() =~= v.stack_items().subrange(1, v.stack_items().len() as int));
}

/// Rewriting the stack pointer during list work: the work goes on, the
/// pairs are kept, and only the continuation's cell changes.
pub proof fn lemma_work_set_sp(v0: CoreView, u: CoreView, c: Any)
    requires
        u.work_from(v0),
        valid(c),
    ensures
        ({
            let w = u.set_sp_state(c);
            &&& w.work_from(v0)
            &&& u.keeps_pairs(w)
            &&& w.sp() == c
            &&& forall|b: Any| readable(b) && !same_cell(b, u.kp()) ==> #[trigger] w.cell(b) == u.cell(b)
        }),
{
    reveal(CoreView::work_from);
    lemma_set_sp_keeps_alloc(u, c, mk(PAIR_T, UNDEF, UNDEF, UNDEF));
    lemma_set_sp_keeps_pairs(v0, u, c);
    let w = u.set_sp_state(c);
    crate::value::lemma_ram_ptr(u.phase(), 0);
    assert(w.ram_top() == u.ram_top());
    assert(w.rom == u.rom);
    assert forall|b: Any| readable(b) && u.in_heap(b) && u.cell(b).t == PAIR_T implies #[trigger] w.cell(b) == u.cell(b) by {
        if same_cell(b, u.kp()) {
            assert(u.cell(b) == u.cell(u.kp()));
        }
    }
    assert(!w.typeq(PAIR_T, w.kp()));
}

/// Pushing during list work onto a kept stack: the stack gets the item in
/// front and stays kept, one longer.
#[verifier::spinoff_prover]
#[verifier::rlimit(60)]
pub proof fn lemma_work_push(v0: CoreView, u: CoreView, x: Any, m: nat)
    requires
        u.work_from(v0),
        valid(x),
        valid(u.sp()),
        u.list_kept(u.sp(), m),
        m < WALK_MAX - 1,
    ensures
        ({
            let (r, w) = u.push_step(x);
            r is Ok ==> {
                &&& w.work_from(v0)
                &&& u.keeps_pairs(w)
                &&& valid(w.sp())
                &&& w.list_kept(w.sp(), m + 1)
                &&& w.stack_items() == seq![x] + u.stack_items()
            }
        }),
{
    reveal(CoreView::work_from);
    let sp = u.sp();
    if u.cons_step(x, sp).0 is Ok {
        crate::deque_laws::lemma_list_cons(u, x, sp, m);
        lemma_work_cons(v0, u, x, sp);
        let f = u.ram_top();
        let v1 = u.cons_step(x, sp).1;
        lemma_work_set_sp(v0, v1, f);
        let w = v1.set_sp_state(f);
        assert(u.push_step(x) == (Ok::<(), Error>(()), w));
        crate::deque_laws::lemma_list_kept_frame(v1, w, f, m + 1);
        crate::deque_laws::lemma_keeps_pairs_trans(u, v1, w);
    }
}

/// Pushing the elements of a kept list `p` of `v0`, last first, during
/// list work: the stack gets the list's items in front, in order.
#[verifier::spinoff_prover]
#[verifier::rlimit(60)]
pub proof fn lemma_push_list(v0: CoreView, u: CoreView, p: Any, fuel: nat, m: nat)
    requires
        u.work_from(v0),
        valid(p),
        v0.list_kept(p, fuel),
        valid(u.sp()),
        u.list_kept(u.sp(), m),
        m + v0.items(p).len() < WALK_MAX - 1,
    ensures
        ({
            let (r, w) = u.push_list_step(p, fuel);
            r is Ok ==> {
                &&& w.work_from(v0)
                &&& valid(w.sp())
                &&& w.list_kept(w.sp(), m + v0.items(p).len())
                &&& w.stack_items() == v0.items(p) + u.stack_items()
            }
        }),
    decreases fuel,
{
    reveal(CoreView::work_from);
    let big = WALK_MAX as nat;
    if fuel > 0 && v0.typeq(PAIR_T, p) {
        lemma_spine_links(v0, p, big);
        assert(v0.kept_pair(p));
        lemma_work_reads(v0, u, p);
        crate::deque_laws::lemma_list_tail(v0, p, fuel);
        let y = v0.cell(p).y;
        lemma_push_list(v0, u, y, (fuel - 1) as nat, m);
        let (r1, w1) = u.push_list_step(y, (fuel - 1) as nat);
        if r1 is Ok {
            lemma_work_reads(v0, w1, p);
            lemma_work_push(v0, w1, v0.cell(p).x, m + v0.items(y).len());
            assert(v0.items(p) == seq![v0.cell(p).x] + v0.items(y));
            assert(u.push_list_step(p, fuel) == w1.push_step(v0.cell(p).x));
            let w = w1.push_step(v0.cell(p).x).1;
            if w1.push_step(v0.cell(p).x).0 is Ok {
                assert(w.stack_items() =~= v0.items(p) + u.stack_items());
            }
        }
    } else {
        lemma_spine_links(v0, p, big);
        assert(v0.items(p) =~= Seq::<Any>::empty());
        assert(fuel > 0);
        assert(!v0.typeq(PAIR_T, p));
        assert(!spec_is_ram(p));
        assert(u.typeq(PAIR_T, p) == v0.typeq(PAIR_T, p)) by {
            if !spec_is_fix(p) {
                assert(u.rom == v0.rom);
                assert(u.cell(p) == v0.cell(p));
            }
        }
        assert(v0.items(p) + u.stack_items() =~= u.stack_items());
    }
}

/// `VM_MY` with `MY_STATE` pushes the elements of the current actor's
/// state (its cell's `y` field, a list), so that the stack then holds the
/// state's items, in order, in front of the old stack's items; the
/// instruction continues at `kip`. Shown when the pairs it allocates come
/// from the top of the heap.
#[verifier::spinoff_prover]
#[verifier::rlimit(60)]
pub proof fn law_perform_my_state(v: CoreView, ip: Any, me: Any)
    requires
        stack_work_ready(v),
        spec_is_ptr(ip),
        readable(ip),
        v.cell(ip).t == INSTR_T,
        v.cell(ip).x == VM_MY,
        v.cell(ip).y == MY_STATE,
        v.self_ptr_result() == Ok::<Any, Error>(me),
        writable(me),
        v.list_kept(v.cell(me).y, WALK_MAX as nat),
        v.stack_items().len() + v.items(v.cell(me).y).len() < WALK_MAX - 2,
    ensures
        ({
            let (r, w) = v.perform_step(ip);
            r is Ok ==> {
                &&& r == Ok::<Any, Error>(v.cell(ip).z)
                &&& w.kp() == v.kp()
                &&& w.stack_items() == v.items(v.cell(me).y) + v.stack_items()
            }
        }),
{
    let st = v.cell(me).y;
    let sp = v.sp();
    let big = WALK_MAX as nat;
    assert(spec_is_ram(v.ep()));
    lemma_work_start(v);
    lemma_cell_fields_valid(v, me);
    lemma_spine_links(v, sp, big);
    assert(v.list_kept(sp, (v.stack_items().len() + 1) as nat));
    assert(v.my_op_step(MY_STATE) == v.push_list_step(st, big));
    assert(v.perform_step(ip) == crate::interp::then_next(v.push_list_step(st, big), v.cell(ip).z));
    lemma_push_list(v, v, st, big, (v.stack_items().len() + 1) as nat);
    if v.perform_step(ip).0 is Ok {
        reveal(CoreView::work_from);
    }
}

/// `VM_PAIR n` with `n <= 0` changes nothing and continues at `kip`.
pub proof fn law_perform_pair_none(v: CoreView, ip: Any)
    requires
        spec_is_ptr(ip),
        readable(ip),
        v.cell(ip).t == INSTR_T,
        v.cell(ip).x == VM_PAIR,
        spec_is_fix(v.cell(ip).y),
        fix_val(v.cell(ip).y) <= 0,
    ensures
        v.perform_step(ip) == (Ok::<Any, Error>(v.cell(ip).z), v),
{
}

/// `VM_PART n` with `n <= 0` drops the top item of the stack (nothing when
/// it is empty) and continues at `kip`.
pub proof fn law_perform_part_none(v: CoreView, ip: Any)
    requires
        v.wf(),
        v.stack_ok(),
        spec_is_ptr(ip),
        readable(ip),
        v.cell(ip).t == INSTR_T,
        v.cell(ip).x == VM_PART,
        spec_is_fix(v.cell(ip).y),
        fix_val(v.cell(ip).y) <= 0,
    ensures
        ({
            let s = v.stack_items();
            let (r, w) = v.perform_step(ip);
            &&& r == Ok::<Any, Error>(v.cell(ip).z)
            &&& w.kp() == v.kp()
            &&& s.len() == 0 ==> w == v
            &&& s.len() > 0 ==> w.stack_items() == s.drop_first()
        }),
{
    crate::op_laws::law_stack_pop_takes_top(v);
    lemma_pop_keeps_stack(v);
    let n = fix_val(v.cell(ip).y);
    assert(v.perform_step(ip) == crate::interp::then_next(v.stack_parts_step(n), v.cell(ip).z));
}

/// One round of the loop of `VM_DUP`: link a new pair holding the element
/// of `v0`'s stack `j` steps down after pair `p`; the loop goes on from
/// the next step.
#[verifier::spinoff_prover]
#[verifier::rlimit(60)]
pub proof fn lemma_dup_round(v0: CoreView, u: CoreView, p: Any, k: int, j: nat)
    requires
        u.work_from(v0),
        k > 0,
        v0.kept_pair(v0.after(v0.sp(), j)),
        writable(p),
        u.in_heap(p),
        !v0.in_heap(p),
        u.cell(p).t == PAIR_T,
    ensures
        ({
            let s = v0.after(v0.sp(), j);
            let h = v0.car(s);
            let q = u.ram_top();
            let u2 = u.cons_step(h, NIL).1;
            let u3 = u2.try_set_cdr_step(p, q).1;
            &&& !(u.cons_step(h, NIL).0 is Ok) ==> u.dup_loop(s, p, k).0 is Err
            &&& u.cons_step(h, NIL).0 is Ok ==> {
                &&& u.dup_loop(s, p, k) == u3.dup_loop(v0.after(v0.sp(), j + 1), q, k - 1)
                &&& u3.work_from(v0)
                &&& u3.sp() == u.sp()
                &&& u3.cell(p) == Quad { y: q, ..u.cell(p) }
                &&& u3.cell(q) == mk(PAIR_T, h, NIL, UNDEF)
                &&& writable(q)
                &&& u3.in_heap(q)
                &&& !v0.in_heap(q)
                &&& !u.in_heap(q)
                &&& u.keeps_pairs_but(u3, p)
                &&& forall|b: Any| u.in_heap(b) ==> !same_cell(b, q)
            }
        }),
{
    reveal(CoreView::work_from);
    let s = v0.after(v0.sp(), j);
    lemma_after_step(v0, v0.sp(), j);
    lemma_work_reads(v0, u, s);
    let h = v0.car(s);
    if u.cons_step(h, NIL).0 is Ok {
        lemma_link(v0, u, p, h);
        let q = u.ram_top();
        let u3 = u.cons_step(h, NIL).1.try_set_cdr_step(p, q).1;
        lemma_work_reads(v0, u3, s);
    }
}

/// The loop of `VM_DUP`, from `j` steps down `v0`'s stack: it links `k`
/// new pairs after pair `p`, holding the stack's elements from there on,
/// in order; `ps` are `p` and those pairs.
#[verifier::spinoff_prover]
#[verifier::rlimit(80)]
pub proof fn lemma_dup_loop(v0: CoreView, u: CoreView, p: Any, k: int, j: nat) -> (ps: Seq<Any>)
    requires
        u.work_from(v0),
        k >= 0,
        j >= 1,
        forall|i: nat| j <= i < j + k ==> v0.kept_pair(#[trigger] v0.after(v0.sp(), i)),
        writable(p),
        u.in_heap(p),
        !v0.in_heap(p),
        u.cell(p).t == PAIR_T,
    ensures
        ({
            let (r, w) = u.dup_loop(v0.after(v0.sp(), j), p, k);
            r is Ok ==> {
                &&& ps.len() == k + 1
                &&& ps[0] == p
                &&& r == Ok::<Any, Error>(ps[k])
                &&& w.work_from(v0)
                &&& w.sp() == u.sp()
                &&& forall|i: int| 0 <= i < k + 1 ==> writable(#[trigger] ps[i]) && w.in_heap(ps[i])
                    && !v0.in_heap(ps[i]) && w.cell(ps[i]).t == PAIR_T
                &&& forall|i: int, i2: int| 0 <= i < i2 < k + 1 ==> !same_cell(#[trigger] ps[i], #[trigger] ps[i2])
                &&& forall|i: int| 1 <= i < k + 1 ==> !u.in_heap(#[trigger] ps[i])
                &&& forall|i: int| 0 <= i < k ==> #[trigger] w.cell(ps[i]).y == ps[i + 1]
                &&& forall|i: int| 1 <= i < k + 1 ==> #[trigger] w.cell(ps[i]).x
                    == v0.car(v0.after(v0.sp(), (j + i - 1) as nat))
                &&& w.cell(p).x == u.cell(p).x
                &&& k == 0 ==> w == u
                &&& u.keeps_pairs_but(w, p)
            }
        }),
    decreases k,
{
    if k <= 0 {
        seq![p]
    } else {
        let s0 = v0.sp();
        assert(v0.kept_pair(v0.after(s0, j)));
        lemma_dup_round(v0, u, p, k, j);
        let h = v0.car(v0.after(s0, j));
        if !(u.cons_step(h, NIL).0 is Ok) {
            seq![p]
        } else {
            let q = u.ram_top();
            let u3 = u.cons_step(h, NIL).1.try_set_cdr_step(p, q).1;
            assert forall|i: nat| j + 1 <= i < (j + 1) + (k - 1) implies v0.kept_pair(#[trigger] v0.after(s0, i)) by {
            }
            let ps2 = lemma_dup_loop(v0, u3, q, k - 1, j + 1);
            let (r, w) = u3.dup_loop(v0.after(s0, j + 1), q, k - 1);
            if r is Ok {
                lemma_glue(v0, u, u3, w, p, q, k + 1, s0, (j - 1) as nat, ps2);
            }
            seq![p] + ps2
        }
    }
}

/// The end of `VM_DUP`: link the old stack after the last copy and make
/// the copies the stack.
#[verifier::spinoff_prover]
#[verifier::rlimit(80)]
pub proof fn lemma_dup_end(v0: CoreView, u: CoreView, ps: Seq<Any>, n: int)
    requires
        u.work_from(v0),
        n >= 1,
        ps.len() == n,
        u.sp() == v0.sp(),
        valid(u.sp()),
        forall|i: int| 0 <= i < n ==> writable(#[trigger] ps[i]) && u.in_heap(ps[i])
            && !v0.in_heap(ps[i]) && u.cell(ps[i]).t == PAIR_T,
        forall|i: int, i2: int| 0 <= i < i2 < n ==> !same_cell(#[trigger] ps[i], #[trigger] ps[i2]),
        forall|i: int| 0 <= i < n - 1 ==> #[trigger] u.cell(ps[i]).y == ps[i + 1],
    ensures
        ({
            let (r, w) = u.dup_rest(ps[n - 1], ps[0]);
            r is Ok ==> {
                &&& w.kp() == v0.kp()
                &&& w.sp() == ps[0]
                &&& forall|i: int| 0 <= i < n ==> writable(#[trigger] ps[i]) && w.cell(ps[i]).t == PAIR_T
                    && w.cell(ps[i]).x == u.cell(ps[i]).x
                &&& forall|i: int| 0 <= i < n - 1 ==> #[trigger] w.cell(ps[i]).y == ps[i + 1]
                &&& w.cell(ps[n - 1]).y == v0.sp()
                &&& v0.keeps_pairs(w)
            }
        }),
{
    reveal(CoreView::work_from);
    let last = ps[n - 1];
    let lst = ps[0];
    let kp = v0.kp();
    assert(writable(last) && u.in_heap(last) && !v0.in_heap(last) && u.cell(last).t == PAIR_T);
    lemma_work_set_cdr(v0, u, last, u.sp());
    let v1 = u.try_set_cdr_step(last, u.sp()).1;
    assert(writable(lst));
    lemma_work_set_sp(v0, v1, lst);
    let w = v1.set_sp_state(lst);
    lemma_set_sp_keeps_pairs(v0, v1, lst);
    assert(u.dup_rest(last, lst) == (Ok::<(), Error>(()), w));
    assert(v0.in_heap(kp));
    assert forall|i: int| 0 <= i < n implies #[trigger] w.cell(ps[i]) == v1.cell(ps[i]) by {
        assert(writable(ps[i]) && !v0.in_heap(ps[i]));
        lemma_fresh_apart(v0, kp, ps[i]);
    }
    assert forall|i: int| 0 <= i < n - 1 implies #[trigger] w.cell(ps[i]).y == ps[i + 1] by {
        assert(!same_cell(ps[i], last));
    }
    assert forall|i: int| 0 <= i < n implies writable(#[trigger] ps[i]) && w.cell(ps[i]).t == PAIR_T
        && w.cell(ps[i]).x == u.cell(ps[i]).x by {
        if i != n - 1 {
            assert(!same_cell(ps[i], last));
        }
    }
}

/// `VM_DUP`'s work on a stack of at least `n` items: the new stack starts
/// with copies of the top `n` items, in order, in front of the old stack.
#[verifier::spinoff_prover]
#[verifier::rlimit(80)]
pub proof fn lemma_stack_dup(v: CoreView, n: int)
    requires
        stack_work_ready(v),
        0 < n <= v.stack_items().len(),
    ensures
        ({
            let sp = v.sp();
            let (r, w) = v.stack_dup_step(n);
            r is Ok ==> {
                &&& w.kp() == v.kp()
                &&& forall|i: int| 1 <= i <= n ==> #[trigger] w.nth_item(w.sp(), i)
                    == v.car(v.after(sp, (i - 1) as nat))
                &&& w.nth_tail(w.sp(), n) == sp
                &&& v.keeps_pairs(w)
            }
        }),
{
    reveal(CoreView::work_from);
    let sp = v.sp();
    lemma_work_start(v);
    lemma_kept_steps(v, sp, (n - 1) as nat);
    assert(v.kept_pair(v.after(sp, 0)));
    lemma_work_reads(v, v, sp);
    let h = v.car(sp);
    if v.cons_step(h, NIL).0 is Ok {
        lemma_work_cons(v, v, h, NIL);
        let top = v.ram_top();
        let v1 = v.cons_step(h, NIL).1;
        lemma_work_reads(v, v1, sp);
        assert(v1.cdr(sp) == v.after(sp, 1)) by {
            lemma_after_step(v, sp, 0);
        }
        assert(v.stack_dup_step(n) == v1.dup_finish(v.after(sp, 1), top, n - 1, top));
        let ps = lemma_dup_loop(v, v1, top, n - 1, 1);
        let (r2, v2) = v1.dup_loop(v.after(sp, 1), top, n - 1);
        if r2 is Ok {
            lemma_dup_end(v, v2, ps, n);
            let w = v2.dup_rest(ps[n - 1], top).1;
            if v2.dup_rest(ps[n - 1], top).0 is Ok {
                lemma_chain(w, ps);
                assert forall|i: int| 1 <= i <= n implies #[trigger] w.nth_item(w.sp(), i)
                    == v.car(v.after(sp, (i - 1) as nat)) by {
                    assert(w.nth_item(ps[0], i) == w.cell(ps[i - 1]).x);
                    if i == 1 {
                        assert(v2.cell(top).x == v1.cell(top).x);
                    } else {
                        assert(v2.cell(ps[i - 1]).x == v.car(v.after(sp, (1 + (i - 1) - 1) as nat)));
                    }
                }
            }
        }
    }
}

/// `VM_DUP n` (with `n > 0`) on a stack of items `s` with at least `n` of
/// them pushes copies of its top `n` items: the new stack starts with
/// `s[0]`, ..., `s[n - 1]`, in order, followed by the old stack, whose
/// pairs are left as they were. Shown when the pairs it allocates come
/// from the top of the heap.
pub proof fn law_perform_dup(v: CoreView, ip: Any)
    requires
        stack_work_ready(v),
        spec_is_ptr(ip),
        readable(ip),
        v.cell(ip).t == INSTR_T,
        v.cell(ip).x == VM_DUP,
        spec_is_fix(v.cell(ip).y),
        0 < fix_val(v.cell(ip).y) <= v.stack_items().len(),
    ensures
        ({
            let n = fix_val(v.cell(ip).y);
            let s = v.stack_items();
            let (r, w) = v.perform_step(ip);
            r is Ok ==> {
                &&& r == Ok::<Any, Error>(v.cell(ip).z)
                &&& w.kp() == v.kp()
                &&& forall|i: int| 1 <= i <= n ==> #[trigger] w.nth_item(w.sp(), i) == s[i - 1]
                &&& w.nth_tail(w.sp(), n) == v.sp()
                &&& w.items(v.sp()) == s
                &&& v.keeps_pairs(w)
            }
        }),
{
    let n = fix_val(v.cell(ip).y);
    let sp = v.sp();
    let s = v.stack_items();
    assert(v.perform_step(ip) == crate::interp::then_next(v.stack_dup_step(n), v.cell(ip).z));
    lemma_stack_dup(v, n);
    let w = v.stack_dup_step(n).1;
    assert forall|i: int| 1 <= i <= n implies #[trigger] v.car(v.after(sp, (i - 1) as nat)) == s[i - 1] by {
        lemma_after_nth(v, sp, (i - 1) as nat);
        crate::op_laws::lemma_nth_item_items(v, sp, i);
    }
    if v.perform_step(ip).0 is Ok {
        lemma_stack_below(v, w, 0);
        assert(s.subrange(0, s.len() as int) =~= s);
    }
}

/// Popping a proper stack keeps it proper, with the same continuation.
pub proof fn lemma_pop_keeps_stack(v: CoreView)
    requires
        v.wf(),
        v.stack_ok(),
    ensures
        v.pop_step().1.stack_ok(),
        v.pop_step().1.kp() == v.kp(),
        v.pop_step().0 is Ok,
{
    crate::op_laws::law_stack_pop_takes_top(v);
    if v.stack_items().len() > 0 {
        let c = v.cdr(v.sp());
        let kp = v.kp();
        let q = Quad { x: c, ..v.cell(kp) };
        let dq = v.ddeque();
        crate::value::lemma_ram_ptr(v.phase(), 1);
        lemma_cell_fields_valid(v, dq);
        lemma_spine_links(v, v.sp(), WALK_MAX as nat);
        assert(spec_is_ram(kp)) by {
            if !spec_is_ram(kp) {
                lemma_after_undef(v, 0);
            }
        }
        v.lemma_set_cell_keeps_types(kp, q);
        if same_cell(kp, dq) {
            v.lemma_set_cell_same(kp, q, dq);
        } else {
            v.lemma_set_cell_other(kp, q, dq);
        }
        let w = v.pop_step().1;
        assert(w.kp() == kp);
        assert(w.stack_items().len() == w.list_len(w.sp()));
    }
}

/// Dropping `k` items from a proper stack leaves the items after the
/// first `k` (none when it has fewer), and a proper stack.
pub proof fn lemma_drop_loop(v: CoreView, k: int)
    requires
        v.wf(),
        v.stack_ok(),
    ensures
        ({
            let s = v.stack_items();
            let (r, w) = v.drop_loop(k);
            &&& r is Ok
            &&& w.wf()
            &&& w.stack_ok()
            &&& w.kp() == v.kp()
            &&& w.stack_items() == (if k <= 0 { s } else if k < s.len() { s.subrange(k, s.len() as int) } else { Seq::<Any>::empty() })
        }),
    decreases k,
{
    let s = v.stack_items();
    if k > 0 {
        crate::op_laws::law_stack_pop_takes_top(v);
        lemma_pop_keeps_stack(v);
        let v1 = v.pop_step().1;
        lemma_drop_loop(v1, k - 1);
        if s.len() > 0 {
            let s1 = v1.stack_items();
            assert(s1 == s.drop_first());
            if k - 1 > 0 && k - 1 < s1.len() {
                assert(s1.subrange(k - 1, s1.len() as int) =~= s.subrange(k, s.len() as int));
            }
            if k == 1 {
                assert(s1 =~= s.subrange(1, s.len() as int));
            }
        } else {
            assert(v1 == v);
            assert(s =~= Seq::<Any>::empty());
        }
    }
}

/// `VM_DROP n` (with `n < 64`) drops the top `n` items of a proper stack
/// (all of them when it has fewer) and continues at `kip`.
pub proof fn law_perform_drop(v: CoreView, ip: Any)
    requires
        v.wf(),
        v.stack_ok(),
        spec_is_ptr(ip),
        readable(ip),
        v.cell(ip).t == INSTR_T,
        v.cell(ip).x == VM_DROP,
        spec_is_fix(v.cell(ip).y),
        fix_val(v.cell(ip).y) < 64,
    ensures
        ({
            let n = fix_val(v.cell(ip).y);
            let s = v.stack_items();
            let (r, w) = v.perform_step(ip);
            &&& r == Ok::<Any, Error>(v.cell(ip).z)
            &&& w.kp() == v.kp()
            &&& w.stack_items() == (if n <= 0 { s } else if n < s.len() { s.subrange(n, s.len() as int) } else { Seq::<Any>::empty() })
        }),
{
    let n = fix_val(v.cell(ip).y);
    assert(v.perform_step(ip) == crate::interp::then_next(v.drop_loop(n), v.cell(ip).z));
    lemma_drop_loop(v, n);
}

/// Pushing onto a ready stack: the stack gets the item in front.
pub proof fn lemma_ready_push(v: CoreView, x: Any)
    requires
        stack_work_ready(v),
        writable(v.kp()),
        valid(x),
        v.stack_items().len() < WALK_MAX - 2,
    ensures
        ({
            let (r, w) = v.push_step(x);
            r is Ok ==> {
                &&& w.kp() == v.kp()
                &&& w.stack_items() == seq![x] + v.stack_items()
                &&& v.keeps_pairs(w)
            }
        }),
{
    lemma_work_start(v);
    let sp = v.sp();
    lemma_spine_links(v, sp, WALK_MAX as nat);
    assert(v.list_kept(sp, (v.stack_items().len() + 1) as nat));
    lemma_work_push(v, v, x, (v.stack_items().len() + 1) as nat);
    if v.push_step(x).0 is Ok {
        reveal(CoreView::work_from);
    }
}

/// Popping a ready stack and pushing `x`: the pop gives the top item, and
/// the stack then holds `x` in front of the items below the top.
#[verifier::spinoff_prover]
#[verifier::rlimit(60)]
pub proof fn lemma_ready_pop_push(v: CoreView, x: Any)
    requires
        stack_work_ready(v),
        v.stack_items().len() > 0,
        valid(x),
        v.stack_items().len() < WALK_MAX - 2,
    ensures
        ({
            let s = v.stack_items();
            let (r1, v1) = v.pop_step();
            let (r, w) = v1.push_step(x);
            &&& r1 == Ok::<Any, Error>(s[0])
            &&& valid(s[0])
            &&& forall|typ: Any, b: Any| valid(b) ==> #[trigger] v1.typeq(typ, b) == v.typeq(typ, b)
            &&& v1.kp() == v.kp()
            &&& r is Ok ==> {
                &&& w.kp() == v.kp()
                &&& w.stack_items() == seq![x] + s.drop_first()
                &&& v.keeps_pairs(w)
            }
        }),
{
    let sp = v.sp();
    let s = v.stack_items();
    let big = WALK_MAX as nat;
    lemma_work_start(v);
    lemma_kept_steps(v, sp, 0);
    assert(v.kept_pair(v.after(sp, 0)));
    lemma_work_pop(v, v);
    let v1 = v.pop_step().1;
    crate::op_laws::lemma_nth_item_items(v, sp, 1);
    lemma_after_nth(v, sp, 0);
    lemma_work_reads(v, v, sp);
    reveal(CoreView::work_from);
    lemma_set_sp_keeps_alloc(v, v.cdr(sp), mk(PAIR_T, UNDEF, UNDEF, UNDEF));
    crate::lists::lemma_spine_valid(v, sp, big);
    lemma_stack_below(v, v1, 1);
    lemma_after_items(v, v1, sp, 1);
    let c = v.cdr(sp);
    let m = s.len() as nat;
    crate::deque_laws::lemma_list_kept_frame(v, v1, c, big);
    assert(v1.list_kept(v1.sp(), m));
    lemma_work_push(v, v1, x, m);
    if v1.push_step(x).0 is Ok {
        let w = v1.push_step(x).1;
        crate::deque_laws::lemma_keeps_pairs_trans(v, v1, w);
    }
}

/// `VM_EQ imm` replaces the top item `x` of the stack with `TRUE` when
/// `x == imm` and `FALSE` otherwise, and continues at `kip`.
#[verifier::spinoff_prover]
pub proof fn law_perform_eq(v: CoreView, ip: Any)
    requires
        stack_work_ready(v),
        v.stack_items().len() > 0,
        v.stack_items().len() < WALK_MAX - 2,
        spec_is_ptr(ip),
        readable(ip),
        v.cell(ip).t == INSTR_T,
        v.cell(ip).x == VM_EQ,
    ensures
        ({
            let s = v.stack_items();
            let b = if v.cell(ip).y == s[0] { TRUE } else { FALSE };
            let (r, w) = v.perform_step(ip);
            r is Ok ==> {
                &&& r == Ok::<Any, Error>(v.cell(ip).z)
                &&& w.kp() == v.kp()
                &&& w.stack_items() == seq![b] + s.drop_first()
            }
        }),
{
    let s = v.stack_items();
    let b = if v.cell(ip).y == s[0] { TRUE } else { FALSE };
    lemma_ready_pop_push(v, b);
}

/// `VM_TYPEQ t` replaces the top item `x` of the stack with `TRUE` when
/// `x` is of type `t` and `FALSE` otherwise, and continues at `kip`.
#[verifier::spinoff_prover]
pub proof fn law_perform_typeq(v: CoreView, ip: Any)
    requires
        stack_work_ready(v),
        v.stack_items().len() > 0,
        v.stack_items().len() < WALK_MAX - 2,
        spec_is_ptr(ip),
        readable(ip),
        v.cell(ip).t == INSTR_T,
        v.cell(ip).x == VM_TYPEQ,
    ensures
        ({
            let s = v.stack_items();
            let b = if v.typeq(v.cell(ip).y, s[0]) { TRUE } else { FALSE };
            let (r, w) = v.perform_step(ip);
            r is Ok ==> {
                &&& r == Ok::<Any, Error>(v.cell(ip).z)
                &&& w.kp() == v.kp()
                &&& w.stack_items() == seq![b] + s.drop_first()
            }
        }),
{
    let s = v.stack_items();
    let b = if v.typeq(v.cell(ip).y, s[0]) { TRUE } else { FALSE };
    lemma_ready_pop_push(v, b);
    assert(v.pop_step().1.typeq(v.cell(ip).y, s[0]) == v.typeq(v.cell(ip).y, s[0]));
}

/// `VM_DEPTH` pushes the number of items on the stack, as a fixnum, and
/// continues at `kip`.
#[verifier::spinoff_prover]
pub proof fn law_perform_depth(v: CoreView, ip: Any)
    requires
        stack_work_ready(v),
        writable(v.kp()),
        v.stack_items().len() < WALK_MAX - 2,
        spec_is_ptr(ip),
        readable(ip),
        v.cell(ip).t == INSTR_T,
        v.cell(ip).x == VM_DEPTH,
    ensures
        ({
            let s = v.stack_items();
            let (r, w) = v.perform_step(ip);
            r is Ok ==> {
                &&& r == Ok::<Any, Error>(v.cell(ip).z)
                &&& w.kp() == v.kp()
                &&& w.stack_items() == seq![spec_fix(s.len() as int)] + s
            }
        }),
{
    let s = v.stack_items();
    let x = spec_fix(s.len() as int);
    crate::value::lemma_fix_roundtrip(s.len() as int);
    lemma_ready_push(v, x);
}

/// The elements and tails of a list read from well-formed memory are valid
/// values.
pub proof fn lemma_nth_valid(v: CoreView, p: Any, n: int)
    requires
        v.wf(),
        valid(p),
    ensures
        valid(v.nth_item(p, n)),
        valid(v.nth_tail(p, n)),
    decreases n,
{
    if v.typeq(PAIR_T, p) {
        lemma_cell_fields_valid(v, p);
        if n > 1 {
            lemma_nth_valid(v, v.cell(p).y, n - 1);
        }
    }
}

/// Two memories that agree on every cell but one that is no pair in
/// either, and on which cells are pairs, read the same list elements and
/// tails.
pub proof fn lemma_nth_frame(v: CoreView, w: CoreView, k: Any, p: Any, n: int)
    requires
        spec_is_ptr(k),
        !v.typeq(PAIR_T, k),
        forall|typ: Any, b: Any| valid(b) ==> #[trigger] w.typeq(typ, b) == v.typeq(typ, b),
        forall|b: Any| readable(b) && !same_cell(b, k) ==> #[trigger] w.cell(b) == v.cell(b),
        v.wf(),
        valid(p),
    ensures
        w.nth_item(p, n) == v.nth_item(p, n),
        w.nth_tail(p, n) == v.nth_tail(p, n),
    decreases n,
{
    assert(w.typeq(PAIR_T, p) == v.typeq(PAIR_T, p));
    if v.typeq(PAIR_T, p) {
        assert(!same_cell(p, k)) by {
            if same_cell(p, k) {
                assert(v.cell(p) == v.cell(k));
            }
        }
        assert(w.cell(p) == v.cell(p));
        lemma_cell_fields_valid(v, p);
        if n > 1 {
            lemma_nth_frame(v, w, k, v.cell(p).y, n - 1);
        }
    }
}

/// `VM_NTH n` (with `-64 < n < 64`) replaces the list `l` on top of the
/// stack with `l` itself when `n` is 0, its `n`-th element when `n > 0`,
/// and its tail after `-n` pairs when `n < 0`, and continues at `kip`.
#[verifier::spinoff_prover]
#[verifier::rlimit(60)]
pub proof fn law_perform_nth(v: CoreView, ip: Any)
    requires
        stack_work_ready(v),
        v.stack_items().len() > 0,
        v.stack_items().len() < WALK_MAX - 2,
        spec_is_ptr(ip),
        readable(ip),
        v.cell(ip).t == INSTR_T,
        v.cell(ip).x == VM_NTH,
        spec_is_fix(v.cell(ip).y),
        -64 < fix_val(v.cell(ip).y) < 64,
    ensures
        ({
            let n = fix_val(v.cell(ip).y);
            let s = v.stack_items();
            let x = if n == 0 { s[0] } else if n > 0 { v.nth_item(s[0], n) } else { v.nth_tail(s[0], -n) };
            let (r, w) = v.perform_step(ip);
            r is Ok ==> {
                &&& r == Ok::<Any, Error>(v.cell(ip).z)
                &&& w.kp() == v.kp()
                &&& w.stack_items() == seq![x] + s.drop_first()
            }
        }),
{
    let n = fix_val(v.cell(ip).y);
    let s = v.stack_items();
    let l = s[0];
    let x = if n == 0 { l } else if n > 0 { v.nth_item(l, n) } else { v.nth_tail(l, -n) };
    lemma_work_start(v);
    reveal(CoreView::work_from);
    lemma_ready_pop_push(v, l);
    lemma_nth_valid(v, l, n);
    lemma_nth_valid(v, l, -n);
    lemma_ready_pop_push(v, x);
    let v1 = v.pop_step().1;
    lemma_set_sp_keeps_alloc(v, v.cdr(v.sp()), mk(PAIR_T, UNDEF, UNDEF, UNDEF));
    lemma_nth_frame(v, v1, v.kp(), l, n);
    lemma_nth_frame(v, v1, v.kp(), l, -n);
    assert(v1.extract(l, n) == x);
}

/// `VM_PUSH imm` pushes `imm` (the value a forwarding cell left by the
/// collector points to, when `imm` designates one) and continues at `kip`.
#[verifier::spinoff_prover]
pub proof fn law_perform_push(v: CoreView, ip: Any)
    requires
        stack_work_ready(v),
        writable(v.kp()),
        v.stack_items().len() < WALK_MAX - 2,
        spec_is_ptr(ip),
        readable(ip),
        v.cell(ip).t == INSTR_T,
        v.cell(ip).x == VM_PUSH,
    ensures
        ({
            let imm = v.cell(ip).y;
            let x = if spec_is_ram(imm) && v.cell(imm).t == GC_FWD_T { v.cell(imm).z } else { imm };
            let (r, w) = v.perform_step(ip);
            r is Ok ==> {
                &&& r == Ok::<Any, Error>(v.cell(ip).z)
                &&& w.kp() == v.kp()
                &&& w.stack_items() == seq![x] + v.stack_items()
            }
        }),
{
    let imm = v.cell(ip).y;
    let x = if spec_is_ram(imm) && v.cell(imm).t == GC_FWD_T { v.cell(imm).z } else { imm };
    lemma_cell_fields_valid(v, ip);
    if spec_is_ram(imm) {
        lemma_cell_fields_valid(v, imm);
    }
    lemma_ready_push(v, x);
}

/// `VM_ALU` with `ALU_NOT` replaces the top item `x` of the stack with its
/// bitwise complement `-x - 1` when `x` is a fixnum, and with `UNDEF`
/// otherwise; the items below stay, and the instruction continues at `kip`.
#[verifier::spinoff_prover]
#[verifier::rlimit(60)]
pub proof fn law_perform_alu_not(v: CoreView, ip: Any)
    requires
        stack_work_ready(v),
        v.stack_items().len() > 0,
        v.stack_items().len() < WALK_MAX - 2,
        spec_is_ptr(ip),
        readable(ip),
        v.cell(ip).t == INSTR_T,
        v.cell(ip).x == VM_ALU,
        v.cell(ip).y == ALU_NOT,
    ensures
        ({
            let s = v.stack_items();
            let (r, w) = v.perform_step(ip);
            let t = w.stack_items()[0];
            r is Ok ==> {
                &&& r == Ok::<Any, Error>(v.cell(ip).z)
                &&& w.kp() == v.kp()
                &&& w.stack_items().len() == s.len()
                &&& w.stack_items().drop_first() == s.drop_first()
                &&& spec_is_fix(s[0]) ==> spec_is_fix(t) && fix_val(t) == -fix_val(s[0]) - 1
                &&& !spec_is_fix(s[0]) ==> t == UNDEF
            }
        }),
{
    let s = v.stack_items();
    let x = crate::interp::not_result(s[0]);
    if spec_is_fix(s[0]) {
        assert(-0x4000_0000 <= fix_val(s[0]) < 0x4000_0000);
        crate::value::lemma_fix_roundtrip(-fix_val(s[0]) - 1);
    }
    lemma_ready_pop_push(v, x);
    if v.perform_step(ip).0 is Ok {
        let w = v.perform_step(ip).1;
        assert(w.stack_items() == seq![x] + s.drop_first());
        assert(w.stack_items().drop_first() =~= s.drop_first());
    }
}

/// `VM_MSG n` (with `-64 < n < 64`) pushes the whole message of the current
/// event when `n` is 0, its `n`-th element when `n > 0`, and its tail
/// after `-n` pairs when `n < 0`, and continues at `kip`.
#[verifier::spinoff_prover]
#[verifier::rlimit(60)]
pub proof fn law_perform_msg(v: CoreView, ip: Any)
    requires
        stack_work_ready(v),
        writable(v.kp()),
        v.stack_items().len() < WALK_MAX - 2,
        spec_is_ptr(ip),
        readable(ip),
        v.cell(ip).t == INSTR_T,
        v.cell(ip).x == VM_MSG,
        spec_is_fix(v.cell(ip).y),
        -64 < fix_val(v.cell(ip).y) < 64,
    ensures
        ({
            let n = fix_val(v.cell(ip).y);
            let m = v.cell(v.ep()).y;
            let x = if n == 0 { m } else if n > 0 { v.nth_item(m, n) } else { v.nth_tail(m, -n) };
            let (r, w) = v.perform_step(ip);
            r is Ok ==> {
                &&& r == Ok::<Any, Error>(v.cell(ip).z)
                &&& w.kp() == v.kp()
                &&& w.stack_items() == seq![x] + v.stack_items()
            }
        }),
{
    let n = fix_val(v.cell(ip).y);
    let ep = v.ep();
    let m = v.cell(ep).y;
    let x = if n == 0 { m } else if n > 0 { v.nth_item(m, n) } else { v.nth_tail(m, -n) };
    lemma_cell_fields_valid(v, v.kp());
    if spec_is_ptr(ep) {
        lemma_cell_fields_valid(v, ep);
        lemma_nth_valid(v, m, n);
        lemma_nth_valid(v, m, -n);
        lemma_ready_push(v, x);
        assert(v.extract(m, n) == x);
    }
}

} // verus!
