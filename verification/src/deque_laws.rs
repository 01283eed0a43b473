//! A deque as a sequence of items.
//!
//! A deque is a pair of two lists: its front list, whose first item is the
//! deque's first, and its back list, whose first item is the deque's last.
//! Every operation builds new cells and shares the old lists (popping from
//! an empty front list first rebuilds the back list, reversed, as the front
//! one), so the laws below hold when every new cell comes from the top of
//! the heap and the lists' pairs lie below it. Each law speaks of the
//! operation when it succeeds; it fails only when a cell cannot be
//! allocated for the current event.
use vstd::prelude::*;
use crate::value::{Any, Error, spec_is_ram, spec_is_fix, spec_ofs, PAIR_T, FREE_T, UNDEF};
use crate::quad::{Quad, mk, valid, valid_quad};
use crate::cpu::{CoreView, readable};
use crate::lists::{WALK_MAX, lemma_cell_fields_valid, lemma_spine_valid};
use crate::dict_laws::lemma_top_alloc;

verus! {

impl CoreView {
    /// The value a list walk stops at: the `cdr` of its last pair, or the
    /// list itself when it is no pair.
    pub open spec fn list_end(self, p: Any, fuel: nat) -> Any
        decreases fuel,
    {
        if fuel == 0 || !self.typeq(PAIR_T, p) {
            p
        } else {
            self.list_end(self.cell(p).y, (fuel - 1) as nat)
        }
    }

    /// A list of fewer than `n` pairs, that ends in no RAM reference, and
    /// whose RAM pairs lie below the top of the heap.
    pub open spec fn list_kept(self, p: Any, n: nat) -> bool {
        let s = self.spine(p, WALK_MAX as nat);
        &&& s.len() < n
        &&& n <= WALK_MAX
        &&& !spec_is_ram(self.list_end(p, WALK_MAX as nat))
        &&& forall|i: int| 0 <= i < s.len() && spec_is_ram(#[trigger] s[i]) ==> self.in_heap(s[i])
    }

    /// The items of a deque, first to last: the front list, then the back
    /// list reversed. A value that is no pair is the empty deque.
    pub open spec fn deque_items(self, d: Any) -> Seq<Any> {
        if self.typeq(PAIR_T, d) {
            self.items(self.car(d)) + self.items(self.cdr(d)).reverse()
        } else {
            Seq::empty()
        }
    }

    /// A deque whose cell, if in RAM, is a pair below the top of the heap,
    /// and whose two lists are kept.
    pub open spec fn deque_kept(self, d: Any) -> bool {
        &&& valid(d)
        &&& spec_is_ram(d) ==> self.in_heap(d) && self.typeq(PAIR_T, d)
        &&& self.list_kept(self.car(d), (WALK_MAX - 1) as nat)
        &&& self.list_kept(self.cdr(d), (WALK_MAX - 1) as nat)
    }

    /// Memory `w` keeps the pairs below the top of the heap of `self`, the
    /// ROM, and those cells' place below the top.
    pub open spec fn keeps_pairs(self, w: CoreView) -> bool {
        &&& w.rom == self.rom
        &&& forall|b: Any| readable(b) && self.in_heap(b) && self.cell(b).t == PAIR_T
            ==> #[trigger] w.cell(b) == self.cell(b)
        &&& forall|b: Any| self.in_heap(b) ==> #[trigger] w.in_heap(b)
    }
}

/// A list walk, its end and the cells it reads are the same in a memory
/// that keeps the list's pairs.
pub proof fn lemma_list_frame(u: CoreView, w: CoreView, p: Any, m: nat)
    requires
        u.wf(),
        valid(p),
        u.keeps_pairs(w),
        !spec_is_ram(u.list_end(p, m)),
        forall|i: int| 0 <= i < u.spine(p, m).len() && spec_is_ram(#[trigger] u.spine(p, m)[i]) ==> u.in_heap(u.spine(p, m)[i]),
    ensures
        w.spine(p, m) == u.spine(p, m),
        w.list_end(p, m) == u.list_end(p, m),
        forall|i: int| 0 <= i < u.spine(p, m).len() ==> #[trigger] w.cell(u.spine(p, m)[i]) == u.cell(u.spine(p, m)[i]),
    decreases m,
{
    if m > 0 && u.typeq(PAIR_T, p) {
        let s = u.spine(p, m);
        assert(s[0] == p);
        assert(w.cell(p) == u.cell(p)) by {
            if !spec_is_ram(p) {
                assert(w.rom == u.rom);
            }
        }
        let y = u.cell(p).y;
        lemma_cell_fields_valid(u, p);
        let t = u.spine(y, (m - 1) as nat);
        assert(s == seq![p] + t);
        assert forall|i: int| 0 <= i < t.len() && spec_is_ram(#[trigger] t[i]) implies u.in_heap(t[i]) by {
            assert(s[i + 1] == t[i]);
        }
        lemma_list_frame(u, w, y, (m - 1) as nat);
        assert(w.spine(p, m) == seq![p] + w.spine(y, (m - 1) as nat));
        assert forall|i: int| 0 <= i < s.len() implies #[trigger] w.cell(s[i]) == u.cell(s[i]) by {
            if i > 0 {
                assert(s[i] == t[i - 1]);
            }
        }
    } else {
        assert(w.typeq(PAIR_T, p) == u.typeq(PAIR_T, p)) by {
            if !spec_is_fix(p) && !spec_is_ram(p) {
                assert(w.rom == u.rom);
            }
        }
    }
}

/// A kept list stays kept, with the same items, in a memory that keeps the
/// pairs.
pub proof fn lemma_list_kept_frame(u: CoreView, w: CoreView, p: Any, n: nat)
    requires
        u.wf(),
        valid(p),
        u.keeps_pairs(w),
        u.list_kept(p, n),
    ensures
        w.list_kept(p, n),
        w.items(p) == u.items(p),
        w.list_len(p) == u.list_len(p),
{
    let big = WALK_MAX as nat;
    lemma_list_frame(u, w, p, big);
    let s = u.spine(p, big);
    assert(w.items(p) =~= u.items(p)) by {
        assert forall|i: int| 0 <= i < s.len() implies w.cell(s[i]).x == u.cell(s[i]).x by {
            assert(w.cell(s[i]) == u.cell(s[i]));
        }
    }
    assert forall|i: int| 0 <= i < s.len() && spec_is_ram(#[trigger] s[i]) implies w.in_heap(s[i]) by {
        assert(u.in_heap(s[i]));
    }
}

/// Allocating a pair from the top of the heap keeps the pairs below it and
/// keeps allocating from the top; the new pair sits at the old top, now
/// below the new one.
pub proof fn lemma_cons_keeps_pairs(u: CoreView, car: Any, cdr: Any)
    requires
        u.wf(),
        u.top_alloc(),
        valid(car),
        valid(cdr),
        u.cons_step(car, cdr).0 is Ok,
    ensures
        ({
            let (r, w) = u.cons_step(car, cdr);
            let p = u.ram_top();
            &&& r == Ok::<Any, Error>(p)
            &&& u.keeps_pairs(w)
            &&& w.wf()
            &&& w.top_alloc()
            &&& w.in_heap(p)
            &&& valid(p)
            &&& w.cell(p) == mk(PAIR_T, car, cdr, UNDEF)
            &&& !u.in_heap(p)
        }),
{
    let init = mk(PAIR_T, car, cdr, UNDEF);
    lemma_top_alloc(u, init, UNDEF, 0);
    let w = u.alloc_state(init);
    let s = u.cur_sponsor();
    let m = u.memory();
    crate::value::lemma_ram_ptr(u.phase(), 0);
    assert forall|b: Any| readable(b) && u.in_heap(b) && u.cell(b).t == PAIR_T implies #[trigger] w.cell(b) == u.cell(b) by {
        assert(!crate::cpu::same_cell(b, s)) by {
            if crate::cpu::same_cell(b, s) {
                assert(u.cell(b) == u.cell(s));
                assert(spec_is_fix(u.cell(s).t));
            }
        }
        assert(!crate::cpu::same_cell(b, m)) by {
            if crate::cpu::same_cell(b, m) {
                assert(u.cell(b) == u.cell(m));
                assert(spec_is_ram(u.ram_top()));
            }
        }
    }
    assert(w.rom == u.rom);
}

/// A pair in front of a list that ends within the walk bound: its items are
/// its `car` in front of the list's items, and it ends where the list ends.
pub proof fn lemma_items_cons(u: CoreView, p: Any, car: Any, cdr: Any)
    requires
        u.typeq(PAIR_T, p),
        u.cell(p) == mk(PAIR_T, car, cdr, UNDEF),
        u.spine(cdr, WALK_MAX as nat).len() < WALK_MAX - 1,
    ensures
        u.items(p) == seq![car] + u.items(cdr),
        u.spine(p, WALK_MAX as nat) == seq![p] + u.spine(cdr, WALK_MAX as nat),
        u.list_end(p, WALK_MAX as nat) == u.list_end(cdr, WALK_MAX as nat),
{
    let big = WALK_MAX as nat;
    crate::op_laws::lemma_spine_settled(u, cdr, big, (big - 1) as nat);
    lemma_list_end_settled(u, cdr, big, (big - 1) as nat);
    assert(u.spine(p, big) == seq![p] + u.spine(cdr, (big - 1) as nat));
    assert(u.items(p) =~= seq![car] + u.items(cdr));
}

/// A walk that ends before its fuel runs out ends at the same value with
/// any fuel that covers it.
pub proof fn lemma_list_end_settled(v: CoreView, p: Any, m: nat, k: nat)
    requires
        v.spine(p, m).len() < m,
        v.spine(p, m).len() <= k,
    ensures
        v.list_end(p, k) == v.list_end(p, m),
    decreases m,
{
    if v.typeq(PAIR_T, p) {
        lemma_list_end_settled(v, v.cell(p).y, (m - 1) as nat, (k - 1) as nat);
    }
}

/// The two fields of a cell of well-formed memory are valid values.
pub proof fn lemma_car_cdr_valid(v: CoreView, d: Any)
    requires
        v.wf(),
        valid(d),
    ensures
        valid(v.car(d)),
        valid(v.cdr(d)),
{
    if v.typeq(PAIR_T, d) {
        lemma_cell_fields_valid(v, d);
    }
}

/// Keeping pairs is transitive.
pub proof fn lemma_keeps_pairs_trans(u: CoreView, v: CoreView, w: CoreView)
    requires
        u.keeps_pairs(v),
        v.keeps_pairs(w),
    ensures
        u.keeps_pairs(w),
{
    assert forall|b: Any| readable(b) && u.in_heap(b) && u.cell(b).t == PAIR_T implies #[trigger] w.cell(b) == u.cell(b) by {
        assert(v.cell(b) == u.cell(b));
        assert(v.in_heap(b));
    }
}

/// A kept deque stays kept, with the same lists and items, in a memory that
/// keeps the pairs.
pub proof fn lemma_deque_frame(u: CoreView, w: CoreView, d: Any)
    requires
        u.wf(),
        u.keeps_pairs(w),
        u.deque_kept(d),
    ensures
        w.typeq(PAIR_T, d) == u.typeq(PAIR_T, d),
        w.car(d) == u.car(d),
        w.cdr(d) == u.cdr(d),
        w.deque_kept(d),
        w.deque_items(d) == u.deque_items(d),
        w.items(w.car(d)) == u.items(u.car(d)),
        w.items(w.cdr(d)) == u.items(u.cdr(d)),
{
    lemma_car_cdr_valid(u, d);
    if u.typeq(PAIR_T, d) {
        assert(w.cell(d) == u.cell(d)) by {
            if !spec_is_ram(d) {
                assert(w.rom == u.rom);
            }
        }
    } else {
        assert(!w.typeq(PAIR_T, d)) by {
            if !spec_is_fix(d) && !spec_is_ram(d) {
                assert(w.rom == u.rom);
            }
        }
    }
    assert(spec_is_ram(d) ==> w.in_heap(d) && w.typeq(PAIR_T, d));
    lemma_list_kept_frame(u, w, u.car(d), (WALK_MAX - 1) as nat);
    lemma_list_kept_frame(u, w, u.cdr(d), (WALK_MAX - 1) as nat);
}

/// Consing an item onto a kept list from the top of the heap gives a kept
/// list one longer, with the item in front.
pub proof fn lemma_list_cons(u: CoreView, x: Any, l: Any, n: nat)
    requires
        u.wf(),
        u.top_alloc(),
        valid(x),
        valid(l),
        u.list_kept(l, n),
        n < WALK_MAX - 1,
        u.cons_step(x, l).0 is Ok,
    ensures
        ({
            let w = u.cons_step(x, l).1;
            let f = u.ram_top();
            &&& u.cons_step(x, l).0 == Ok::<Any, Error>(f)
            &&& valid(f)
            &&& u.keeps_pairs(w)
            &&& w.wf()
            &&& w.top_alloc()
            &&& w.list_kept(f, n + 1)
            &&& w.items(f) == seq![x] + u.items(l)
        }),
{
    lemma_cons_keeps_pairs(u, x, l);
    let w = u.cons_step(x, l).1;
    let f = u.ram_top();
    lemma_list_kept_frame(u, w, l, n);
    assert(w.typeq(PAIR_T, f));
    lemma_items_cons(w, f, x, l);
    let big = WALK_MAX as nat;
    let s = w.spine(f, big);
    let t = w.spine(l, big);
    assert forall|i: int| 0 <= i < s.len() && spec_is_ram(#[trigger] s[i]) implies w.in_heap(s[i]) by {
        if i > 0 {
            assert(s[i] == t[i - 1]);
        }
    }
}

/// A new deque cell from the top of the heap over two kept lists holds the
/// first list's items followed by the second's reversed.
pub proof fn lemma_new_deque(u: CoreView, f: Any, b: Any)
    requires
        u.wf(),
        u.top_alloc(),
        valid(f),
        valid(b),
        u.list_kept(f, (WALK_MAX - 1) as nat),
        u.list_kept(b, (WALK_MAX - 1) as nat),
        u.cons_step(f, b).0 is Ok,
    ensures
        ({
            let w = u.cons_step(f, b).1;
            let nd = u.ram_top();
            &&& u.cons_step(f, b).0 == Ok::<Any, Error>(nd)
            &&& u.keeps_pairs(w)
            &&& w.wf()
            &&& w.top_alloc()
            &&& w.deque_kept(nd)
            &&& w.deque_items(nd) == u.items(f) + u.items(b).reverse()
        }),
{
    lemma_cons_keeps_pairs(u, f, b);
    let w = u.cons_step(f, b).1;
    let nd = u.ram_top();
    lemma_list_kept_frame(u, w, f, (WALK_MAX - 1) as nat);
    lemma_list_kept_frame(u, w, b, (WALK_MAX - 1) as nat);
    assert(w.typeq(PAIR_T, nd));
    assert(w.car(nd) == f && w.cdr(nd) == b);
}

/// A walk that ends before its fuel runs out ends at something that is no
/// pair.
pub proof fn lemma_list_end_not_pair(v: CoreView, p: Any, m: nat)
    requires
        v.spine(p, m).len() < m,
    ensures
        !v.typeq(PAIR_T, v.list_end(p, m)),
    decreases m,
{
    if v.typeq(PAIR_T, p) {
        lemma_list_end_not_pair(v, v.cell(p).y, (m - 1) as nat);
    }
}

/// A value outside RAM that is no pair is no pair in a memory that keeps
/// the ROM, and is a list without items there.
pub proof fn lemma_rest_empty(v: CoreView, w: CoreView, r: Any)
    requires
        v.keeps_pairs(w),
        !spec_is_ram(r),
        !v.typeq(PAIR_T, r),
    ensures
        !w.typeq(PAIR_T, r),
        w.items(r) == Seq::<Any>::empty(),
        w.spine(r, WALK_MAX as nat).len() == 0,
        w.list_end(r, WALK_MAX as nat) == r,
{
    assert(w.typeq(PAIR_T, r) == v.typeq(PAIR_T, r)) by {
        if !spec_is_fix(r) {
            assert(w.rom == v.rom);
        }
    }
    assert(w.items(r) =~= Seq::<Any>::empty());
}

/// Pushing onto a deque puts the item in front of the deque's items.
pub proof fn law_deque_push_prepends(v: CoreView, d: Any, x: Any)
    requires
        v.wf(),
        v.top_alloc(),
        valid(x),
        v.deque_kept(d),
        v.deque_items(d).len() + 2 < WALK_MAX,
    ensures
        v.deque_push_step(d, x).0 matches Ok(nd) ==> ({
            let w = v.deque_push_step(d, x).1;
            &&& w.deque_items(nd) == seq![x] + v.deque_items(d)
            &&& w.deque_kept(nd)
            &&& w.top_alloc()
        }),
{
    lemma_car_cdr_valid(v, d);
    let front = v.car(d);
    let back = v.cdr(d);
    let (r1, v1) = v.cons_step(x, front);
    if r1 is Ok {
        let n = (v.items(back).len() + v.items(front).len() + 1) as nat;
        assert(v.list_kept(front, (v.items(front).len() + 1) as nat));
        lemma_list_cons(v, x, front, (v.items(front).len() + 1) as nat);
        let f = v.ram_top();
        lemma_deque_frame(v, v1, d);
        let (r2, w) = v1.cons_step(f, back);
        if r2 is Ok {
            lemma_new_deque(v1, f, back);
            assert(w.deque_items(v1.ram_top()) =~= seq![x] + v.deque_items(d));
        }
    }
}

/// Putting onto a deque puts the item after the deque's items.
pub proof fn law_deque_put_appends(v: CoreView, d: Any, x: Any)
    requires
        v.wf(),
        v.top_alloc(),
        valid(x),
        v.deque_kept(d),
        v.deque_items(d).len() + 2 < WALK_MAX,
    ensures
        v.deque_put_step(d, x).0 matches Ok(nd) ==> ({
            let w = v.deque_put_step(d, x).1;
            &&& w.deque_items(nd) == v.deque_items(d).push(x)
            &&& w.deque_kept(nd)
            &&& w.top_alloc()
        }),
{
    lemma_car_cdr_valid(v, d);
    let front = v.car(d);
    let back = v.cdr(d);
    let (r1, v1) = v.cons_step(x, back);
    if r1 is Ok {
        assert(v.list_kept(back, (v.items(back).len() + 1) as nat));
        lemma_list_cons(v, x, back, (v.items(back).len() + 1) as nat);
        let b = v.ram_top();
        lemma_deque_frame(v, v1, d);
        let (r2, w) = v1.cons_step(front, b);
        if r2 is Ok {
            lemma_new_deque(v1, front, b);
            assert((seq![x] + v.items(back)).reverse() =~= v.items(back).reverse().push(x));
            assert(w.deque_items(v1.ram_top()) =~= v.deque_items(d).push(x));
        }
    }
}

/// The list after the first pair of a kept list is kept, holds the rest of
/// the items, and ends where the list ends.
pub proof fn lemma_list_tail(u: CoreView, p: Any, n: nat)
    requires
        u.wf(),
        valid(p),
        u.typeq(PAIR_T, p),
        u.list_kept(p, n),
    ensures
        valid(u.cell(p).y),
        u.list_kept(u.cell(p).y, (n - 1) as nat),
        u.list_kept(u.cell(p).y, n),
        u.items(p) == seq![u.cell(p).x] + u.items(u.cell(p).y),
        u.list_end(u.cell(p).y, WALK_MAX as nat) == u.list_end(p, WALK_MAX as nat),
        u.list_len(p) == u.list_len(u.cell(p).y) + 1,
{
    let big = WALK_MAX as nat;
    let y = u.cell(p).y;
    lemma_cell_fields_valid(u, p);
    let s = u.spine(p, big);
    let t = u.spine(y, (big - 1) as nat);
    assert(s == seq![p] + t);
    crate::op_laws::lemma_spine_settled(u, y, (big - 1) as nat, big);
    lemma_list_end_settled(u, y, (big - 1) as nat, big);
    assert forall|i: int| 0 <= i < t.len() && spec_is_ram(#[trigger] t[i]) implies u.in_heap(t[i]) by {
        assert(s[i + 1] == t[i]);
    }
    assert(u.items(p) =~= seq![u.cell(p).x] + u.items(y));
}

/// Moving a kept list onto another, item by item from the top of the heap,
/// gives a kept list of the first list's items reversed in front of the
/// second's, and stops at the first list's end.
pub proof fn lemma_move(u: CoreView, from: Any, onto: Any, fuel: nat)
    requires
        u.wf(),
        u.top_alloc(),
        valid(from),
        valid(onto),
        u.list_kept(from, (WALK_MAX - 1) as nat),
        u.list_kept(onto, (WALK_MAX - 1 - u.list_len(from)) as nat),
        u.list_len(from) < fuel,
    ensures
        u.move_step(from, onto, fuel).0 matches Ok((o, rest)) ==> ({
            let w = u.move_step(from, onto, fuel).1;
            &&& w.wf()
            &&& w.top_alloc()
            &&& u.keeps_pairs(w)
            &&& valid(o)
            &&& w.list_kept(o, (WALK_MAX - 1) as nat)
            &&& w.items(o) == u.items(from).reverse() + u.items(onto)
            &&& rest == u.list_end(from, WALK_MAX as nat)
        }),
    decreases fuel,
{
    let big = WALK_MAX as nat;
    if u.typeq(PAIR_T, from) {
        let x = u.cell(from).x;
        let y = u.cell(from).y;
        lemma_cell_fields_valid(u, from);
        lemma_list_tail(u, from, (big - 1) as nat);
        let (r, v1) = u.cons_step(x, onto);
        if r is Ok {
            let n = (WALK_MAX - 1 - u.list_len(from)) as nat;
            lemma_list_cons(u, x, onto, n);
            let o1 = u.ram_top();
            lemma_list_kept_frame(u, v1, y, (big - 1) as nat);
            lemma_list_frame(u, v1, y, big);
            lemma_move(v1, y, o1, (fuel - 1) as nat);
            if u.move_step(from, onto, fuel).0 is Ok {
                let w = u.move_step(from, onto, fuel).1;
                lemma_keeps_pairs_trans(u, v1, w);
                assert(u.items(from).reverse() =~= u.items(y).reverse() + seq![x]);
                assert(u.items(from).reverse() + u.items(onto) =~= u.items(y).reverse() + (seq![x] + u.items(onto)));
            }
        }
    } else {
        assert(u.items(from) =~= Seq::<Any>::empty());
        assert(u.items(from).reverse() + u.items(onto) =~= u.items(onto));
        assert(u.list_kept(onto, (WALK_MAX - 1) as nat));
    }
}

/// Taking the first item of a kept front list: the new deque holds the rest
/// of the front list and the back list.
pub proof fn lemma_take_first(u: CoreView, d: Any, f: Any, b: Any)
    requires
        u.wf(),
        u.top_alloc(),
        valid(f),
        valid(b),
        u.typeq(PAIR_T, f),
        u.list_kept(f, (WALK_MAX - 1) as nat),
        u.list_kept(b, (WALK_MAX - 1) as nat),
    ensures
        u.take_first_step(d, f, b).0 matches Ok((nd, item)) ==> ({
            let w = u.take_first_step(d, f, b).1;
            &&& item == u.items(f)[0]
            &&& w.deque_items(nd) == u.items(f).drop_first() + u.items(b).reverse()
            &&& w.deque_kept(nd)
            &&& w.top_alloc()
        }),
{
    lemma_list_tail(u, f, (WALK_MAX - 1) as nat);
    let y = u.cell(f).y;
    if u.cons_step(y, b).0 is Ok {
        lemma_new_deque(u, y, b);
        assert(u.items(f).drop_first() =~= u.items(y));
    }
}

/// Taking the first item of a kept back list: the new deque holds the front
/// list and the rest of the back list.
pub proof fn lemma_take_last(u: CoreView, d: Any, f: Any, b: Any)
    requires
        u.wf(),
        u.top_alloc(),
        valid(f),
        valid(b),
        u.typeq(PAIR_T, b),
        u.list_kept(f, (WALK_MAX - 1) as nat),
        u.list_kept(b, (WALK_MAX - 1) as nat),
    ensures
        u.take_last_step(d, f, b).0 matches Ok((nd, item)) ==> ({
            let w = u.take_last_step(d, f, b).1;
            &&& item == u.items(b)[0]
            &&& w.deque_items(nd) == u.items(f) + u.items(b).drop_first().reverse()
            &&& w.deque_kept(nd)
            &&& w.top_alloc()
        }),
{
    lemma_list_tail(u, b, (WALK_MAX - 1) as nat);
    let y = u.cell(b).y;
    if u.cons_step(f, y).0 is Ok {
        lemma_new_deque(u, f, y);
        assert(u.items(b).drop_first() =~= u.items(y));
    }
}

/// After a move: the moved list `onto` and what is left of the old list
/// (`rest`, no RAM pair) make a deque from which one item can be taken.
#[verifier::spinoff_prover]
proof fn lemma_after_move(v: CoreView, v1: CoreView, d: Any, onto: Any, rest: Any, front_side: bool)
    requires
        v.wf(),
        v1.wf(),
        v1.top_alloc(),
        v.keeps_pairs(v1),
        valid(onto),
        valid(rest),
        v1.list_kept(onto, (WALK_MAX - 1) as nat),
        v1.items(onto).len() > 0,
        !spec_is_ram(rest),
        !v.typeq(PAIR_T, rest),
    ensures
        front_side ==> (v1.take_first_step(d, onto, rest).0 matches Ok((nd, item)) ==> ({
            let w = v1.take_first_step(d, onto, rest).1;
            &&& item == v1.items(onto)[0]
            &&& w.deque_items(nd) == v1.items(onto).drop_first()
            &&& w.deque_kept(nd) && w.top_alloc()
        })),
        !front_side ==> (v1.take_last_step(d, rest, onto).0 matches Ok((nd, item)) ==> ({
            let w = v1.take_last_step(d, rest, onto).1;
            &&& item == v1.items(onto)[0]
            &&& w.deque_items(nd) == v1.items(onto).drop_first().reverse()
            &&& w.deque_kept(nd) && w.top_alloc()
        })),
{
    assert(v1.typeq(PAIR_T, onto));
    lemma_rest_empty(v, v1, rest);
    assert(v1.list_kept(rest, (WALK_MAX - 1) as nat));
    if front_side {
        lemma_take_first(v1, d, onto, rest);
        assert(v1.items(onto).drop_first() + v1.items(rest).reverse() =~= v1.items(onto).drop_first());
    } else {
        lemma_take_last(v1, d, rest, onto);
        assert(v1.items(rest) + v1.items(onto).drop_first().reverse() =~= v1.items(onto).drop_first().reverse());
    }
}

/// Popping a deque whose front list is empty and whose back list is not:
/// the back list is moved to the front, and its last item comes off.
#[verifier::spinoff_prover]
proof fn lemma_pop_moved(v: CoreView, d: Any)
    requires
        v.wf(),
        v.top_alloc(),
        v.deque_kept(d),
        v.typeq(PAIR_T, d),
        !v.typeq(PAIR_T, v.car(d)),
        v.typeq(PAIR_T, v.cdr(d)),
    ensures
        v.deque_pop_step(d).0 matches Ok((nd, item)) ==> ({
            let s = v.deque_items(d);
            let w = v.deque_pop_step(d).1;
            &&& s.len() > 0 && item == s[0] && w.deque_items(nd) == s.drop_first()
            &&& w.deque_kept(nd) && w.top_alloc()
        }),
{
    let big = WALK_MAX as nat;
    lemma_car_cdr_valid(v, d);
    let front = v.car(d);
    let back = v.cdr(d);
    let s = v.deque_items(d);
    assert(v.items(front) =~= Seq::<Any>::empty());
    assert(v.list_len(front) == 0);
    lemma_move(v, back, front, big);
    let (r, v1) = v.move_step(back, front, big);
    assert(v.deque_pop_step(d) == (match r {
        Ok((o, re)) => v1.take_first_step(d, o, re),
        Err(e) => (Err::<(Any, Any), Error>(e), v1),
    }));
    if let Ok((onto, rest)) = r {
        lemma_list_tail(v, back, (big - 1) as nat);
        lemma_list_end_not_pair(v, back, big);
        assert(s =~= v.items(back).reverse());
        assert(v1.items(onto) =~= s);
        assert(valid(rest)) by {
            lemma_list_end_valid(v, back, big);
        }
        lemma_after_move(v, v1, d, onto, rest, true);
    }
}

/// Pulling from a deque whose back list is empty and whose front list is
/// not: the front list is moved to the back, and its last item comes off.
#[verifier::spinoff_prover]
proof fn lemma_pull_moved(v: CoreView, d: Any)
    requires
        v.wf(),
        v.top_alloc(),
        v.deque_kept(d),
        v.typeq(PAIR_T, d),
        v.typeq(PAIR_T, v.car(d)),
        !v.typeq(PAIR_T, v.cdr(d)),
    ensures
        v.deque_pull_step(d).0 matches Ok((nd, item)) ==> ({
            let s = v.deque_items(d);
            let w = v.deque_pull_step(d).1;
            &&& s.len() > 0 && item == s.last() && w.deque_items(nd) == s.drop_last()
            &&& w.deque_kept(nd) && w.top_alloc()
        }),
{
    let big = WALK_MAX as nat;
    lemma_car_cdr_valid(v, d);
    let front = v.car(d);
    let back = v.cdr(d);
    let s = v.deque_items(d);
    assert(v.items(back) =~= Seq::<Any>::empty());
    assert(v.list_len(back) == 0);
    lemma_move(v, front, back, big);
    let (r, v1) = v.move_step(front, back, big);
    assert(v.deque_pull_step(d) == (match r {
        Ok((o, re)) => v1.take_last_step(d, re, o),
        Err(e) => (Err::<(Any, Any), Error>(e), v1),
    }));
    if let Ok((onto, rest)) = r {
        lemma_list_tail(v, front, (big - 1) as nat);
        lemma_list_end_not_pair(v, front, big);
        assert(s =~= v.items(front));
        assert(v1.items(onto) =~= s.reverse());
        assert(valid(rest)) by {
            lemma_list_end_valid(v, front, big);
        }
        lemma_after_move(v, v1, d, onto, rest, false);
        assert(s.reverse().drop_first().reverse() =~= s.drop_last());
        assert(s.reverse()[0] == s.last());
    }
}

/// The value a walk of a list in well-formed memory stops at is valid.
pub proof fn lemma_list_end_valid(v: CoreView, p: Any, m: nat)
    requires
        v.wf(),
        valid(p),
    ensures
        valid(v.list_end(p, m)),
    decreases m,
{
    if m > 0 && v.typeq(PAIR_T, p) {
        lemma_cell_fields_valid(v, p);
        lemma_list_end_valid(v, v.cell(p).y, (m - 1) as nat);
    }
}

/// Popping a deque gives its first item and leaves the rest: a deque is
/// first-in first-out with `put` and `pop`. An empty deque gives `UNDEF`
/// and stays as it is.
#[verifier::spinoff_prover]
pub proof fn law_deque_pop_takes_first(v: CoreView, d: Any)
    requires
        v.wf(),
        v.top_alloc(),
        v.deque_kept(d),
    ensures
        v.deque_pop_step(d).0 matches Ok((nd, item)) ==> ({
            let s = v.deque_items(d);
            let w = v.deque_pop_step(d).1;
            &&& s.len() == 0 ==> item == UNDEF && nd == d && w == v
            &&& s.len() > 0 ==> item == s[0] && w.deque_items(nd) == s.drop_first()
            &&& s.len() > 0 ==> w.deque_kept(nd) && w.top_alloc()
        }),
{
    lemma_car_cdr_valid(v, d);
    let front = v.car(d);
    let back = v.cdr(d);
    let s = v.deque_items(d);
    if v.typeq(PAIR_T, d) {
        if v.typeq(PAIR_T, front) {
            lemma_take_first(v, d, front, back);
            lemma_list_tail(v, front, (WALK_MAX - 1) as nat);
            assert(v.items(front).len() > 0);
            assert(s.drop_first() =~= v.items(front).drop_first() + v.items(back).reverse());
        } else if v.typeq(PAIR_T, back) {
            lemma_pop_moved(v, d);
        } else {
            assert(v.items(front) =~= Seq::<Any>::empty());
            assert(v.items(back) =~= Seq::<Any>::empty());
            assert(s =~= Seq::<Any>::empty());
        }
    }
}

/// Pulling from a deque gives its last item and leaves the rest: a deque
/// is first-in first-out with `push` and `pull`. An empty deque gives
/// `UNDEF` and stays as it is.
#[verifier::spinoff_prover]
pub proof fn law_deque_pull_takes_last(v: CoreView, d: Any)
    requires
        v.wf(),
        v.top_alloc(),
        v.deque_kept(d),
    ensures
        v.deque_pull_step(d).0 matches Ok((nd, item)) ==> ({
            let s = v.deque_items(d);
            let w = v.deque_pull_step(d).1;
            &&& s.len() == 0 ==> item == UNDEF && nd == d && w == v
            &&& s.len() > 0 ==> item == s.last() && w.deque_items(nd) == s.drop_last()
            &&& s.len() > 0 ==> w.deque_kept(nd) && w.top_alloc()
        }),
{
    lemma_car_cdr_valid(v, d);
    let front = v.car(d);
    let back = v.cdr(d);
    let s = v.deque_items(d);
    if v.typeq(PAIR_T, d) {
        if v.typeq(PAIR_T, back) {
            lemma_take_last(v, d, front, back);
            lemma_list_tail(v, back, (WALK_MAX - 1) as nat);
            assert(v.items(back).len() > 0);
            assert(s.drop_last() =~= v.items(front) + v.items(back).drop_first().reverse());
        } else if v.typeq(PAIR_T, front) {
            lemma_pull_moved(v, d);
        } else {
            assert(v.items(front) =~= Seq::<Any>::empty());
            assert(v.items(back) =~= Seq::<Any>::empty());
            assert(s =~= Seq::<Any>::empty());
        }
    }
}

} // verus!
