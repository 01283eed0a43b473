//! Laws of the machine: properties that relate several operations.
//!
//! Allocation takes the cell the allocator designates (`reserve_ptr`) and
//! charges the current sponsor by rewriting the sponsor's cell. In a machine
//! whose memory has been corrupted the allocated cell may coincide with the
//! sponsor's cell, a memory descriptor, or a cell of the structure being
//! built; the laws that build structures leave such states out by naming the
//! cells that must stay apart.
use vstd::prelude::*;
use crate::value::{
    Any, ZERO, spec_is_fix, spec_is_cap, spec_is_ptr, spec_is_ram, spec_ofs, fix_val, spec_fix,
    is_fixnum_range, clear_opq, set_opq, opq_bit, mut_bit, bnk_bit, lemma_fix_roundtrip, PAIR_T,
    FREE_T, DICT_T, EMPTY_DQ, UNDEF, NIL, GC_FWD_T, LITERAL_T, BNK_0, BNK_1, Raw, spec_bank, is_bank,
};
use crate::quad::{Quad, mk, valid, valid_quad, QUAD_RAM_MAX};
use crate::gc::other_bank;
use crate::cpu::{CoreView, same_cell, writable, readable, valid_at, BLOB_RAM_MAX};
use crate::lists::{WALK_MAX, lemma_cell_fields_valid, lemma_dict_del_step_wf};

verus! {

impl CoreView {
    /// The next allocation lands neither on the current sponsor's cell nor
    /// on a memory descriptor, and the sponsor is no memory descriptor.
    pub open spec fn fresh_alloc(self) -> bool {
        &&& !same_cell(self.reserve_ptr(), self.cur_sponsor())
        &&& spec_ofs(self.reserve_ptr()) != 0
        &&& spec_ofs(self.cur_sponsor()) != 0
    }

    /// The next allocation leaves cell `a` alone: `a` is neither the cell it
    /// takes, nor the sponsor's cell, nor the memory descriptor.
    pub open spec fn alloc_spares(self, a: Any) -> bool {
        &&& !same_cell(a, self.reserve_ptr())
        &&& !same_cell(a, self.cur_sponsor())
        &&& !same_cell(a, self.memory())
    }
}

/// Marking a pointer as a capability and unmarking it gives the pointer back,
/// and the two designate the same cell.
pub proof fn law_cap_roundtrip(ptr: Any)
    requires
        spec_is_ptr(ptr),
    ensures
        spec_is_cap(set_opq(ptr)),
        clear_opq(set_opq(ptr)) == ptr,
        same_cell(ptr, set_opq(ptr)),
{
}

/// Unmarking a capability and marking it again gives the capability back.
pub proof fn law_ptr_roundtrip(cap: Any)
    requires
        spec_is_cap(cap),
    ensures
        spec_is_ptr(clear_opq(cap)),
        set_opq(clear_opq(cap)) == cap,
        same_cell(cap, clear_opq(cap)),
{
}

/// The two octets of a 16-bit length put together give the length back.
pub proof fn law_u16_octets(n: usize)
    requires
        n < 0x1_0000,
    ensures
        (n % 256) + 256 * ((n / 256) % 256) == n,
{
}

/// Reading blob RAM gives what was last written at that offset; writing one
/// offset leaves the others alone.
pub proof fn law_blob_write_read(v: CoreView, ofs: usize, data: u8, other: usize)
    requires
        v.wf(),
        ofs < BLOB_RAM_MAX,
        other < BLOB_RAM_MAX,
    ensures
        ({
            let w = CoreView { blob: v.blob.update(ofs as int, data), ..v };
            &&& w.blob[ofs as int] == data
            &&& other != ofs ==> w.blob[other as int] == v.blob[other as int]
        }),
{
}

/// Freeing a cell and then reserving one hands the same cell back, and the
/// pair of operations leaves the allocator as it was: the net effect is that
/// of writing the new contents into the cell.
pub proof fn law_free_then_reserve(v: CoreView, ptr: Any, init: Quad)
    requires
        v.wf(),
        valid_quad(init),
        v.in_heap(ptr),
        !spec_is_cap(ptr),
        v.spare_cell(ptr),
        valid(ptr),
        !v.typeq(FREE_T, ptr),
        spec_is_fix(v.ram_free()),
        0 <= fix_val(v.ram_free()),
        fix_val(v.ram_free()) + 1 < 0x4000_0000,
    ensures
        v.free_state(ptr).reserve_ok(),
        v.free_state(ptr).reserve_ptr() == ptr,
        v.free_state(ptr).reserve_state(init) == v.set_cell(ptr, init),
{
    let m = v.memory();
    let n = fix_val(v.ram_free());
    let v1 = v.set_cell(ptr, mk(FREE_T, UNDEF, UNDEF, v.ram_next()));
    v.lemma_set_cell_keeps_phase(ptr, mk(FREE_T, UNDEF, UNDEF, v.ram_next()));
    v.lemma_set_cell_wf(ptr, mk(FREE_T, UNDEF, UNDEF, v.ram_next()));
    let q = Quad { x: ptr, y: spec_fix(n + 1), ..v.mem_cell() };
    let v2 = v1.set_memory(q);
    assert(v2 == v.free_state(ptr));
    crate::value::lemma_ram_ptr(v.phase(), 0);
    lemma_fix_roundtrip(n + 1);
    lemma_fix_roundtrip(n);
    assert(v1.wf());
    assert(v2.phase() == v.phase()) by {
        if v.phase() == crate::value::BNK_0 {
            v1.lemma_set_cell_same(m, q, m);
        } else {
            let z = crate::value::spec_ram_ptr(crate::value::BNK_0, 0);
            crate::value::lemma_ram_ptr(crate::value::BNK_0, 0);
            v1.lemma_set_cell_other(m, q, z);
            v.lemma_set_cell_other(ptr, mk(FREE_T, UNDEF, UNDEF, v.ram_next()), z);
        }
    }
    v1.lemma_set_cell_same(m, q, m);
    assert(v2.mem_cell() == q);
    v1.lemma_set_cell_other(m, q, ptr);
    v.lemma_set_cell_same(ptr, mk(FREE_T, UNDEF, UNDEF, v.ram_next()), ptr);
    assert(v2.cell(ptr) == mk(FREE_T, UNDEF, UNDEF, v.ram_next()));
    assert(v2.free_path());
    assert(spec_fix(n + 1 - 1) == v.ram_free());
    let q2 = Quad { x: v2.cell(ptr).z, y: spec_fix(fix_val(v2.ram_free()) - 1), ..v2.mem_cell() };
    assert(q2 == v.mem_cell());
    let w = v2.set_memory(q2).set_cell(ptr, init);
    assert(w == v2.reserve_state(init));
    assert(w =~= v.set_cell(ptr, init)) by {
        assert(w.ram0 =~= v.set_cell(ptr, init).ram0);
        assert(w.ram1 =~= v.set_cell(ptr, init).ram1);
    }
}

/// The pair `cons` builds holds its two arguments, and the sponsor is charged
/// one cell.
pub proof fn law_cons_car_cdr(v: CoreView, a: Any, b: Any)
    requires
        v.wf(),
        valid(a),
        valid(b),
        v.cons_step(a, b).0 is Ok,
        v.fresh_alloc(),
    ensures
        ({
            let p = v.reserve_ptr();
            let w = v.cons_step(a, b).1;
            let s = v.cur_sponsor();
            &&& v.cons_step(a, b).0 == Ok::<Any, crate::value::Error>(p)
            &&& w.car(p) == a
            &&& w.cdr(p) == b
            &&& w.quota(s) == v.quota(s) - 1
        }),
{
    let init = mk(PAIR_T, a, b, UNDEF);
    v.lemma_alloc_cell(init, v.cur_sponsor());
    let p = v.reserve_ptr();
    let s = v.cur_sponsor();
    let w = v.alloc_state(init);
    let v2 = v.reserve_state(init);
    v2.lemma_set_cell_same(s, Quad { t: spec_fix(v.quota(s) - 1), ..v2.cell(s) }, s);
    lemma_fix_roundtrip(v.quota(s) - 1);
}

impl CoreView {
    /// The references a dictionary lookup looks at within `fuel` entries: the
    /// entries it passes, then the reference that ends the chain.
    pub open spec fn dict_path(self, d: Any, fuel: nat) -> Seq<Any>
        decreases fuel,
    {
        if fuel == 0 {
            Seq::empty()
        } else if !self.typeq(DICT_T, d) {
            seq![d]
        } else {
            seq![d] + self.dict_path(self.cell(d).z, (fuel - 1) as nat)
        }
    }
}

/// The references on a dictionary path of well-formed memory are valid.
pub proof fn lemma_dict_path_valid(v: CoreView, d: Any, fuel: nat)
    requires
        v.wf(),
        valid(d),
    ensures
        forall|i: int| 0 <= i < v.dict_path(d, fuel).len() ==> valid(#[trigger] v.dict_path(d, fuel)[i]),
    decreases fuel,
{
    if fuel > 0 && v.typeq(DICT_T, d) {
        lemma_cell_fields_valid(v, d);
        lemma_dict_path_valid(v, v.cell(d).z, (fuel - 1) as nat);
        let s = v.dict_path(d, fuel);
        let t = v.dict_path(v.cell(d).z, (fuel - 1) as nat);
        assert forall|i: int| 0 <= i < s.len() implies valid(#[trigger] s[i]) by {
            if i > 0 {
                assert(s[i] == t[i - 1]);
            }
        }
    }
}

/// A lookup gives the same answer in two memories that agree on the cells it
/// looks at.
pub proof fn lemma_dict_lookup_frame(v: CoreView, w: CoreView, d: Any, key: Any, fuel: nat)
    requires
        forall|i: int| 0 <= i < v.dict_path(d, fuel).len() && spec_is_ptr(#[trigger] v.dict_path(d, fuel)[i])
            ==> w.cell(v.dict_path(d, fuel)[i]) == v.cell(v.dict_path(d, fuel)[i]),
    ensures
        w.dict_lookup(d, key, fuel) == v.dict_lookup(d, key, fuel),
        w.dict_path(d, fuel) == v.dict_path(d, fuel),
    decreases fuel,
{
    if fuel > 0 {
        let s = v.dict_path(d, fuel);
        assert(s[0] == d);
        if v.typeq(DICT_T, d) {
            let t = v.dict_path(v.cell(d).z, (fuel - 1) as nat);
            assert forall|i: int| 0 <= i < t.len() && spec_is_ptr(#[trigger] t[i]) implies w.cell(t[i]) == v.cell(t[i]) by {
                assert(t[i] == s[i + 1]);
            }
            lemma_dict_lookup_frame(v, w, v.cell(d).z, key, (fuel - 1) as nat);
        }
    }
}

/// After an entry is added in front of a dictionary, looking its key up gives
/// its value.
pub proof fn law_dict_add_get(v: CoreView, dict: Any, key: Any, value: Any)
    requires
        v.wf(),
        valid(dict),
        valid(key),
        valid(value),
        v.alloc_outcome(mk(DICT_T, key, value, dict)) is Ok,
        v.fresh_alloc(),
    ensures
        ({
            let d = v.reserve_ptr();
            let w = v.alloc_state(mk(DICT_T, key, value, dict));
            &&& v.alloc_outcome(mk(DICT_T, key, value, dict)) == Ok::<Any, crate::value::Error>(d)
            &&& w.dict_lookup(d, key, WALK_MAX as nat) == Some(value)
            &&& w.dict_get(d, key) == value
        }),
{
    v.lemma_alloc_cell(mk(DICT_T, key, value, dict), UNDEF);
}

/// Adding an entry shadows no other key: looking another key up in the new
/// dictionary within `n + 1` entries gives what looking it up in the old one
/// within `n` entries gives, provided the allocation spares the cells that
/// lookup looks at.
pub proof fn law_dict_add_other(v: CoreView, dict: Any, key: Any, value: Any, other: Any, n: nat)
    requires
        v.wf(),
        valid(dict),
        valid(key),
        valid(value),
        other != key,
        v.alloc_outcome(mk(DICT_T, key, value, dict)) is Ok,
        v.fresh_alloc(),
        forall|i: int| 0 <= i < v.dict_path(dict, n).len() ==> v.alloc_spares(#[trigger] v.dict_path(dict, n)[i]),
    ensures
        ({
            let d = v.reserve_ptr();
            let w = v.alloc_state(mk(DICT_T, key, value, dict));
            w.dict_lookup(d, other, n + 1) == v.dict_lookup(dict, other, n)
        }),
{
    let init = mk(DICT_T, key, value, dict);
    let w = v.alloc_state(init);
    let path = v.dict_path(dict, n);
    v.lemma_alloc_cell(init, UNDEF);
    lemma_dict_path_valid(v, dict, n);
    assert forall|i: int| 0 <= i < path.len() && spec_is_ptr(#[trigger] path[i]) implies w.cell(path[i]) == v.cell(path[i]) by {
        v.lemma_alloc_cell(init, path[i]);
    }
    lemma_dict_lookup_frame(v, w, dict, other, n);
}

/// Popping the deque that a push of `x` returned yields `x`: its front list
/// is a pair holding `x` in front of the old front list, and its back list is
/// the old back list (so `deque_pop` returns `x` and a deque made of the old
/// lists).
pub proof fn law_deque_push_pop(v: CoreView, d: Any, x: Any)
    requires
        v.wf(),
        valid(d),
        valid(x),
        v.deque_push_step(d, x).0 is Ok,
        v.fresh_alloc(),
        v.alloc_spares(d),
        v.cons_step(x, v.car(d)).1.fresh_alloc(),
        v.cons_step(x, v.car(d)).1.alloc_spares(v.reserve_ptr()),
    ensures
        ({
            let v1 = v.cons_step(x, v.car(d)).1;
            let nd = v1.reserve_ptr();
            let w = v.deque_push_step(d, x).1;
            let front = w.car(nd);
            &&& v.deque_push_step(d, x).0 == Ok::<Any, crate::value::Error>(nd)
            &&& w.typeq(PAIR_T, nd)
            &&& w.typeq(PAIR_T, front)
            &&& w.car(front) == x
            &&& w.cdr(front) == v.car(d)
            &&& w.cdr(nd) == v.cdr(d)
        }),
{
    if !spec_is_fix(d) {
        lemma_cell_fields_valid(v, d);
    }
    let init1 = mk(PAIR_T, x, v.car(d), UNDEF);
    let f = v.reserve_ptr();
    let v1 = v.alloc_state(init1);
    v.lemma_alloc_cell(init1, d);
    assert(v1.cdr(d) == v.cdr(d));
    let init2 = mk(PAIR_T, f, v1.cdr(d), UNDEF);
    v1.lemma_alloc_cell(init2, f);
}

/// Pulling from the deque that a put of `x` returned yields `x`: its back
/// list is a pair holding `x` in front of the old back list, and its front
/// list is the old front list (so `deque_pull` returns `x` and a deque made
/// of the old lists).
pub proof fn law_deque_put_pull(v: CoreView, d: Any, x: Any)
    requires
        v.wf(),
        valid(d),
        valid(x),
        v.deque_put_step(d, x).0 is Ok,
        v.fresh_alloc(),
        v.cons_step(x, v.cdr(d)).1.fresh_alloc(),
        v.cons_step(x, v.cdr(d)).1.alloc_spares(v.reserve_ptr()),
    ensures
        ({
            let v1 = v.cons_step(x, v.cdr(d)).1;
            let nd = v1.reserve_ptr();
            let w = v.deque_put_step(d, x).1;
            let back = w.cdr(nd);
            &&& v.deque_put_step(d, x).0 == Ok::<Any, crate::value::Error>(nd)
            &&& w.typeq(PAIR_T, nd)
            &&& w.typeq(PAIR_T, back)
            &&& w.car(back) == x
            &&& w.cdr(back) == v.cdr(d)
            &&& w.car(nd) == v.car(d)
        }),
{
    if !spec_is_fix(d) {
        lemma_cell_fields_valid(v, d);
    }
    let init1 = mk(PAIR_T, x, v.cdr(d), UNDEF);
    let b = v.reserve_ptr();
    let v1 = v.alloc_state(init1);
    v.lemma_alloc_cell(init1, UNDEF);
    assert(v1.cell(b) == init1);
    let init2 = mk(PAIR_T, v.car(d), b, UNDEF);
    let nd = v1.reserve_ptr();
    let w = v1.alloc_state(init2);
    assert(v.deque_put_step(d, x) == v1.cons_step(v.car(d), b));
    v1.lemma_alloc_cell(init2, b);
    assert(w.cell(nd) == init2);
    assert(w.cell(b) == init1);
}

/// Popping right after a push yields the pushed value and gives the stack
/// back as it was: after `push_step(val)` the stack is a pair holding `val`
/// in front of the old stack.
pub proof fn law_stack_push_pop(v: CoreView, val: Any)
    requires
        v.wf(),
        valid(val),
        v.push_step(val).0 is Ok,
        v.fresh_alloc(),
        v.alloc_spares(v.ddeque()),
        v.alloc_spares(v.kp()),
    ensures
        ({
            let w = v.push_step(val).1;
            &&& w.kp() == v.kp()
            &&& w.kp_ok()
            &&& w.typeq(PAIR_T, w.sp())
            &&& w.car(w.sp()) == val
            &&& w.cdr(w.sp()) == v.sp()
        }),
{
    let init = mk(PAIR_T, val, v.sp(), UNDEF);
    let p = v.reserve_ptr();
    let v1 = v.alloc_state(init);
    let kp = v.kp();
    crate::value::lemma_ram_ptr(v.phase(), 1);
    v.lemma_alloc_cell(init, v.ddeque());
    v.lemma_alloc_cell(init, kp);
    assert(v1.phase() == v.phase());
    assert(v1.kp() == kp);
    let q = Quad { x: p, ..v1.cell(kp) };
    let w = v1.set_cell(kp, q);
    assert(w == v.push_step(val).1);
    v1.lemma_set_cell_same(kp, q, kp);
    v1.lemma_set_cell_other(kp, q, p);
    assert(w.phase() == v1.phase()) by {
        crate::value::lemma_ram_ptr(crate::value::BNK_0, 0);
        let z = crate::value::spec_ram_ptr(crate::value::BNK_0, 0);
        if same_cell(kp, z) {
            v1.lemma_set_cell_same(kp, q, z);
        } else {
            v1.lemma_set_cell_other(kp, q, z);
        }
    }
    assert(w.kp() == kp) by {
        let dq = v1.ddeque();
        if same_cell(kp, dq) {
            v1.lemma_set_cell_same(kp, q, dq);
        } else {
            v1.lemma_set_cell_other(kp, q, dq);
        }
    }
}

impl CoreView {
    /// Writing a RAM cell other than a memory descriptor, or writing one
    /// without changing its `t` field, keeps the collector's phase, and with
    /// it where the memory descriptor and the queue cell are; every other cell
    /// is as it was.
    pub proof fn lemma_set_cell_keeps_phase(self, a: Any, q: Quad)
        requires
            self.wf(),
            writable(a),
            q.t == self.cell(a).t || spec_ofs(a) != 0 || (bnk_bit(a) && self.phase() == BNK_0),
        ensures
            self.set_cell(a, q).phase() == self.phase(),
            self.set_cell(a, q).memory() == self.memory(),
            self.set_cell(a, q).ddeque() == self.ddeque(),
            self.set_cell(a, q).cell(a) == q,
            forall|b: Any| readable(b) && !same_cell(a, b) ==> #[trigger] self.set_cell(a, q).cell(b) == self.cell(b),
    {
        crate::value::lemma_ram_ptr(crate::value::BNK_0, 0);
        let z = crate::value::spec_ram_ptr(crate::value::BNK_0, 0);
        if same_cell(a, z) {
            self.lemma_set_cell_same(a, q, z);
        } else {
            self.lemma_set_cell_other(a, q, z);
        }
        self.lemma_set_cell_same(a, q, a);
        assert forall|b: Any| readable(b) && !same_cell(a, b) implies #[trigger] self.set_cell(a, q).cell(b) == self.cell(b) by {
            self.lemma_set_cell_other(a, q, b);
        }
    }
}

impl CoreView {
    /// What a reservation leaves in the reserved cell and elsewhere: the cell
    /// holds `init`; every cell other than it and the memory descriptor is as
    /// it was, and the collector's phase is unchanged.
    pub proof fn lemma_reserve_cell(self, init: Quad)
        requires
            self.wf(),
            valid_quad(init),
            self.reserve_ok(),
            spec_ofs(self.reserve_ptr()) != 0,
        ensures
            ({
                let p = self.reserve_ptr();
                let w = self.reserve_state(init);
                &&& writable(p)
                &&& w.wf()
                &&& w.phase() == self.phase()
                &&& w.cell(p) == init
                &&& forall|b: Any| readable(b) && !same_cell(b, p) && !same_cell(b, self.memory())
                    ==> #[trigger] w.cell(b) == self.cell(b)
            }),
    {
        let p = self.reserve_ptr();
        let m = self.memory();
        crate::value::lemma_ram_ptr(self.phase(), 0);
        let q = if self.free_path() {
            Quad { x: self.cell(p).z, y: spec_fix(fix_val(self.ram_free()) - 1), ..self.mem_cell() }
        } else {
            Quad { t: crate::value::spec_ram_ptr(self.phase(), (spec_ofs(p) + 1) as usize), ..self.mem_cell() }
        };
        if !self.free_path() {
            crate::value::lemma_ram_ptr(self.phase(), (spec_ofs(p) + 1) as usize);
        } else {
            lemma_cell_fields_valid(self, m);
        }
        let v1 = self.set_memory(q);
        let w = v1.set_cell(p, init);
        assert(w == self.reserve_state(init));
        assert(v1.wf());
        assert(v1.phase() == self.phase()) by {
            let z = crate::value::spec_ram_ptr(crate::value::BNK_0, 0);
            crate::value::lemma_ram_ptr(crate::value::BNK_0, 0);
            if self.phase() == crate::value::BNK_0 {
                self.lemma_set_cell_same(m, q, m);
            } else {
                self.lemma_set_cell_other(m, q, z);
            }
        }
        assert(writable(p));
        v1.lemma_set_cell_keeps_phase(p, init);
        assert forall|b: Any| readable(b) && !same_cell(b, p) && !same_cell(b, m) implies #[trigger] w.cell(b) == self.cell(b) by {
            self.lemma_set_cell_other(m, q, b);
        }
    }
}

/// An injected event goes to the front of the event queue, ahead of the
/// events that were waiting.
pub proof fn law_event_inject_front(v: CoreView, sponsor: Any, target: Any, msg: Any)
    requires
        v.wf(),
        valid(sponsor),
        valid(target),
        valid(msg),
        v.reserve_ok(),
        spec_ofs(v.reserve_ptr()) != 0,
        !same_cell(v.reserve_ptr(), v.ddeque()),
    ensures
        ({
            let ep = v.reserve_ptr();
            let v1 = v.reserve_state(mk(sponsor, target, msg, NIL));
            let first = v1.e_first();
            let v2 = v1.set_link(ep, first);
            let v3 = if !spec_is_ram(first) {
                v2.set_ddeque(Quad { x: ep, ..v2.dq_cell() })
            } else {
                v2
            };
            let w = v3.set_ddeque(Quad { t: ep, ..v3.dq_cell() });
            &&& w.e_first() == ep
            &&& w.cell(ep) == mk(sponsor, target, msg, v.e_first())
            &&& !spec_is_ram(v.e_first()) ==> w.e_last() == ep
            &&& spec_is_ram(v.e_first()) ==> w.e_last() == v.e_last()
        }),
{
    let init = mk(sponsor, target, msg, NIL);
    let ep = v.reserve_ptr();
    let dq = v.ddeque();
    crate::value::lemma_ram_ptr(v.phase(), 1);
    v.lemma_reserve_cell(init);
    let v1 = v.reserve_state(init);
    assert(v1.dq_cell() == v.dq_cell());
    let first = v1.e_first();
    let q1 = Quad { z: first, ..v1.cell(ep) };
    let v2 = v1.set_link(ep, first);
    v1.lemma_set_cell_keeps_phase(ep, q1);
    assert(v2.dq_cell() == v.dq_cell());
    let v3 = if !spec_is_ram(first) {
        let q2 = Quad { x: ep, ..v2.dq_cell() };
        v2.lemma_set_cell_keeps_phase(dq, q2);
        v2.set_ddeque(q2)
    } else {
        v2
    };
    let q3 = Quad { t: ep, ..v3.dq_cell() };
    v3.lemma_set_cell_keeps_phase(dq, q3);
}

/// After a key is set, looking it up gives the value it was set to. Setting
/// first unbinds the key (copying the entries in front of its old entry),
/// then adds an entry in front; the law holds when that last allocation lands
/// on a fresh cell.
pub proof fn law_dict_set_get(v: CoreView, dict: Any, key: Any, value: Any)
    requires
        v.wf(),
        valid(dict),
        valid(key),
        valid(value),
        v.dict_set_step(dict, key, value).0 is Ok,
        v.dict_unbind_step(dict, key).1.fresh_alloc(),
    ensures
        ({
            let (r, w) = v.dict_set_step(dict, key, value);
            &&& r == Ok::<Any, crate::value::Error>(v.dict_unbind_step(dict, key).1.reserve_ptr())
            &&& w.dict_get(v.dict_unbind_step(dict, key).1.reserve_ptr(), key) == value
        }),
{
    let (r0, v0) = v.dict_unbind_step(dict, key);
    if v.dict_lookup(dict, key, WALK_MAX as nat) is Some {
        lemma_dict_del_step_wf(v, dict, key, WALK_MAX as nat);
    }
    if let Ok(d0) = r0 {
        law_dict_add_get(v0, d0, key, value);
    }
}

/// A deque is a queue: an item put on the back of the empty deque comes off
/// its front (popping moves the back list to the front).
pub proof fn law_deque_put_pop_empty(v: CoreView, x: Any)
    requires
        v.wf(),
        valid(x),
        v.deque_put_step(EMPTY_DQ, x).0 is Ok,
        v.fresh_alloc(),
        v.cons_step(x, NIL).1.fresh_alloc(),
        v.cons_step(x, NIL).1.alloc_spares(v.reserve_ptr()),
        v.deque_put_step(EMPTY_DQ, x).1.fresh_alloc(),
    ensures
        ({
            let (r, w) = v.deque_put_step(EMPTY_DQ, x);
            let nd = v.cons_step(x, NIL).1.reserve_ptr();
            &&& r == Ok::<Any, crate::value::Error>(nd)
            &&& w.deque_pop_step(nd).0 matches Ok((_, item)) ==> item == x
        }),
{
    assert(v.rom[5] == mk(PAIR_T, NIL, NIL, UNDEF));
    assert(v.car(EMPTY_DQ) == NIL);
    assert(v.cdr(EMPTY_DQ) == NIL);
    law_deque_put_pull(v, EMPTY_DQ, x);
    let (r, w) = v.deque_put_step(EMPTY_DQ, x);
    let v1 = v.cons_step(x, NIL).1;
    let b = v.reserve_ptr();
    let nd = v1.reserve_ptr();
    v.lemma_alloc_cell(mk(PAIR_T, x, NIL, UNDEF), UNDEF);
    v1.lemma_alloc_cell(mk(PAIR_T, NIL, b, UNDEF), b);
    assert(w.wf());
    assert(w.cell(b) == mk(PAIR_T, x, NIL, UNDEF));
    assert(!w.typeq(PAIR_T, NIL));
    assert(w.typeq(PAIR_T, b));
    let init = mk(PAIR_T, x, NIL, UNDEF);
    let (r1, u1) = w.cons_step(x, NIL);
    if w.alloc_outcome(init) is Ok {
        w.lemma_alloc_cell(init, UNDEF);
        let o = w.reserve_ptr();
        assert(!u1.typeq(PAIR_T, NIL));
        assert(u1.move_step(NIL, o, (WALK_MAX - 1) as nat) == (Ok::<(Any, Any), crate::value::Error>((o, NIL)), u1));
        assert(w.move_step(b, NIL, WALK_MAX as nat) == (Ok::<(Any, Any), crate::value::Error>((o, NIL)), u1));
        assert(u1.typeq(PAIR_T, o));
        assert(u1.car(o) == x);
    } else {
        assert(w.move_step(b, NIL, WALK_MAX as nat).0 is Err);
    }
}

/// Aborting a transaction restores the actor from the snapshot taken when
/// its event was dispatched, and frees the snapshot.
pub proof fn law_abort_restores_actor(v: CoreView, me: Any)
    requires
        v.wf(),
        writable(me),
        spec_ofs(me) != 0,
        v.kp_ok(),
        spec_is_ptr(v.ep()),
        writable(v.cell(v.ep()).z),
        !same_cell(me, v.cell(v.ep()).z),
        valid_quad(v.cell(v.cell(v.ep()).z)),
        v.set_cell(me, v.cell(v.cell(v.ep()).z)).can_free(v.cell(v.ep()).z),
    ensures
        ({
            let rollback = v.cell(v.ep()).z;
            let (r, w) = v.abort_rest(me);
            &&& r == Ok::<(), crate::value::Error>(())
            &&& w.cell(me) == v.cell(rollback)
            &&& w.typeq(FREE_T, rollback)
        }),
{
    let rollback = v.cell(v.ep()).z;
    let q = v.cell(rollback);
    let v1 = v.set_cell(me, q);
    v.lemma_set_cell_keeps_phase(me, q);
    assert(v1.wf()) by {
        crate::cpu::lemma_valid_quad_at(me, q);
        v.lemma_set_cell_frame(me, q);
    }
    let n = fix_val(v1.ram_free());
    let v2 = v1.set_cell(rollback, mk(FREE_T, UNDEF, UNDEF, v1.ram_next()));
    v1.lemma_set_cell_keeps_phase(rollback, mk(FREE_T, UNDEF, UNDEF, v1.ram_next()));
    let m = v1.memory();
    let qm = Quad { x: rollback, y: spec_fix(n + 1), ..v1.mem_cell() };
    let w = v2.set_memory(qm);
    assert(w == v1.free_state(rollback));
    crate::value::lemma_ram_ptr(v1.phase(), 0);
    assert(!same_cell(me, m));
    assert(!same_cell(rollback, m));
    v2.lemma_set_cell_other(m, qm, me);
    v2.lemma_set_cell_other(m, qm, rollback);
}

/// The pairs of a list walk are pairs, each the `cdr` of the one before.
pub proof fn lemma_spine_links(v: CoreView, p: Any, fuel: nat)
    ensures
        v.spine(p, fuel).len() <= fuel,
        v.spine(p, fuel).len() > 0 ==> v.spine(p, fuel)[0] == p,
        forall|i: int| 0 <= i < v.spine(p, fuel).len() ==> v.typeq(PAIR_T, #[trigger] v.spine(p, fuel)[i]),
        forall|i: int| 0 <= i < v.spine(p, fuel).len() - 1 ==> #[trigger] v.spine(p, fuel)[i + 1] == v.cell(v.spine(p, fuel)[i]).y,
    decreases fuel,
{
    if fuel > 0 && v.typeq(PAIR_T, p) {
        let s = v.spine(p, fuel);
        let t = v.spine(v.cell(p).y, (fuel - 1) as nat);
        lemma_spine_links(v, v.cell(p).y, (fuel - 1) as nat);
        assert(s == seq![p] + t);
        assert forall|i: int| 0 <= i < s.len() implies v.typeq(PAIR_T, #[trigger] s[i]) by {
            if i > 0 {
                assert(s[i] == t[i - 1]);
            }
        }
        assert forall|i: int| 0 <= i < s.len() - 1 implies #[trigger] s[i + 1] == v.cell(s[i]).y by {
            assert(s[i + 1] == t[i]);
            if i > 0 {
                assert(s[i] == t[i - 1]);
                assert(t[(i - 1) + 1] == v.cell(t[i - 1]).y);
            } else {
                assert(t[0] == v.cell(p).y);
            }
        }
    }
}

/// Splitting a list at its `k`-th pair finds the `k`-th pair of its walk
/// and the one before it.
pub proof fn lemma_split_from_spine(v: CoreView, pred: Any, p: Any, k: int, m: nat)
    requires
        1 <= k <= m,
        v.spine(p, m).len() == m,
    ensures
        v.split_from(pred, p, k) == (if k == 1 { pred } else { v.spine(p, m)[k - 2] }, v.spine(p, m)[k - 1]),
    decreases k,
{
    lemma_spine_links(v, p, m);
    let s = v.spine(p, m);
    if k > 1 {
        let q = v.cell(p).y;
        let t = v.spine(q, (m - 1) as nat);
        assert(s == seq![p] + t);
        lemma_split_from_spine(v, p, q, k - 1, (m - 1) as nat);
        assert(t[k - 2] == s[k - 1]);
        if k > 2 {
            assert(t[k - 3] == s[k - 2]);
        }
    }
}

/// Two memories whose cells agree on type along a list walk, and on `cdr`
/// for all pairs but the last, have the same walk.
pub proof fn lemma_spine_frame(v: CoreView, w: CoreView, p: Any, m: nat)
    requires
        v.spine(p, m).len() == m,
        forall|i: int| 0 <= i < m ==> #[trigger] w.cell(v.spine(p, m)[i]).t == v.cell(v.spine(p, m)[i]).t,
        forall|i: int| 0 <= i < m - 1 ==> #[trigger] w.cell(v.spine(p, m)[i]).y == v.cell(v.spine(p, m)[i]).y,
    ensures
        w.spine(p, m) == v.spine(p, m),
    decreases m,
{
    lemma_spine_links(v, p, m);
    if m > 0 {
        let s = v.spine(p, m);
        let q = v.cell(p).y;
        let t = v.spine(q, (m - 1) as nat);
        assert(s[0] == p);
        assert(w.cell(p).t == v.cell(p).t);
        assert(v.typeq(PAIR_T, p));
        assert(w.typeq(PAIR_T, p));
        assert(s == seq![p] + t);
        if m == 1 {
            assert(w.spine(w.cell(p).y, 0) =~= Seq::<Any>::empty());
            assert(w.spine(p, m) == seq![p] + w.spine(w.cell(p).y, 0));
            assert(w.spine(p, m) =~= seq![p]);
            assert(s =~= seq![p]);
        }
        if m > 1 {
            assert(w.cell(p).y == v.cell(p).y);
            assert forall|i: int| 0 <= i < m - 1 implies #[trigger] w.cell(t[i]).t == v.cell(t[i]).t by {
                assert(t[i] == s[i + 1]);
            }
            assert forall|i: int| 0 <= i < m - 2 implies #[trigger] w.cell(t[i]).y == v.cell(t[i]).y by {
                assert(t[i] == s[i + 1]);
            }
            lemma_spine_frame(v, w, q, (m - 1) as nat);
            assert(w.spine(p, m) == seq![p] + w.spine(q, (m - 1) as nat));
        }
    }
}

/// The walk of a list with less fuel is a prefix of the walk with more.
pub proof fn lemma_spine_prefix(v: CoreView, p: Any, m: nat, k: nat)
    requires
        k <= m,
        v.spine(p, m).len() == m,
    ensures
        v.spine(p, k) == v.spine(p, m).take(k as int),
    decreases k,
{
    lemma_spine_links(v, p, m);
    if k > 0 {
        let q = v.cell(p).y;
        lemma_spine_prefix(v, q, (m - 1) as nat, (k - 1) as nat);
        assert(v.spine(p, m) == seq![p] + v.spine(q, (m - 1) as nat));
        assert(v.spine(p, k) == seq![p] + v.spine(q, (k - 1) as nat));
        assert(v.spine(p, k) =~= v.spine(p, m).take(k as int));
    } else {
        assert(v.spine(p, k) =~= v.spine(p, m).take(k as int));
    }
}

impl CoreView {
    /// Writing a RAM cell without changing its `t` field changes the `t`
    /// field of no cell: types, the top of the heap and the phase stay.
    pub proof fn lemma_set_cell_keeps_types(self, a: Any, q: Quad)
        requires
            self.wf(),
            writable(a),
            q.t == self.cell(a).t,
        ensures
            forall|b: Any| readable(b) ==> #[trigger] self.set_cell(a, q).cell(b).t == self.cell(b).t,
            forall|typ: Any, b: Any| valid(b) ==> #[trigger] self.set_cell(a, q).typeq(typ, b) == self.typeq(typ, b),
            self.set_cell(a, q).phase() == self.phase(),
            self.set_cell(a, q).memory() == self.memory(),
            self.set_cell(a, q).ddeque() == self.ddeque(),
            self.set_cell(a, q).ram_top() == self.ram_top(),
            self.set_cell(a, q).wf() <== valid_at(a, q),
    {
        self.lemma_set_cell_keeps_phase(a, q);
        assert forall|b: Any| readable(b) implies #[trigger] self.set_cell(a, q).cell(b).t == self.cell(b).t by {
            if same_cell(a, b) {
                self.lemma_set_cell_same(a, q, b);
                self.lemma_set_cell_same(a, self.cell(a), b);
                assert(self.cell(a) == self.cell(b)) by {
                    if bnk_bit(a) {
                        assert(self.ram1.update(spec_ofs(a) as int, self.cell(a))[spec_ofs(b) as int]
                            == self.ram1[spec_ofs(b) as int]);
                    } else {
                        assert(self.ram0.update(spec_ofs(a) as int, self.cell(a))[spec_ofs(b) as int]
                            == self.ram0[spec_ofs(b) as int]);
                    }
                }
            }
        }
        crate::value::lemma_ram_ptr(self.phase(), 0);
        assert(readable(self.memory()));
        if valid_at(a, q) {
            assert(self.set_cell(a, q).wf()) by {
                crate::value::lemma_ram_ptr(crate::value::BNK_0, 0);
                crate::value::lemma_ram_ptr(crate::value::BNK_1, 0);
                let z0 = crate::value::spec_ram_ptr(crate::value::BNK_0, 0);
                let z1 = crate::value::spec_ram_ptr(crate::value::BNK_1, 0);
                if same_cell(a, z0) {
                    self.lemma_set_cell_same(a, q, z0);
                } else {
                    self.lemma_set_cell_other(a, q, z0);
                }
                if same_cell(a, z1) {
                    self.lemma_set_cell_same(a, q, z1);
                } else {
                    self.lemma_set_cell_other(a, q, z1);
                }
                let w = self.set_cell(a, q);
                assert forall|i: int| 1 <= i < QUAD_RAM_MAX implies valid_quad(#[trigger] w.ram0[i]) by {
                    if !bnk_bit(a) && i == spec_ofs(a) {
                        assert(w.ram0[i] == q);
                    } else {
                        assert(w.ram0[i] == self.ram0[i]);
                    }
                }
                assert forall|i: int| 1 <= i < QUAD_RAM_MAX implies valid_quad(#[trigger] w.ram1[i]) by {
                    if bnk_bit(a) && i == spec_ofs(a) {
                        assert(w.ram1[i] == q);
                    } else {
                        assert(w.ram1[i] == self.ram1[i]);
                    }
                }
            }
        }
    }
}

impl CoreView {
    /// A stack of at least `n` pairs (`1 < n < 64`) that are all distinct and
    /// distinct from the continuation and queue cells, whose `n - 1`-th and
    /// `n`-th pairs lie in the heap.
    pub open spec fn roll_ready(self, n: int) -> bool {
        let ss = self.spine(self.sp(), n as nat);
        &&& self.wf()
        &&& 1 < n < 64
        &&& self.kp_ok()
        &&& writable(self.kp())
        &&& ss.len() == n
        &&& forall|i: int, j: int| 0 <= i < j < n ==> !same_cell(#[trigger] ss[i], #[trigger] ss[j])
        &&& forall|i: int| 0 <= i < n ==> !same_cell(#[trigger] ss[i], self.kp())
        &&& forall|i: int| 0 <= i < n ==> !same_cell(#[trigger] ss[i], self.ddeque())
        &&& self.in_heap(ss[n - 2])
        &&& self.in_heap(ss[n - 1])
    }

    /// The `n`-th pair of the stack and the one before it.
    pub open spec fn roll_pred(self, n: int) -> Any {
        self.spine(self.sp(), n as nat)[n - 2]
    }

    pub open spec fn roll_nth(self, n: int) -> Any {
        self.spine(self.sp(), n as nat)[n - 1]
    }

    /// The contents after the first roll: the `n - 1`-th pair is linked past
    /// the `n`-th, the `n`-th is linked to the old stack, and becomes the stack.
    pub open spec fn rolled_up(self, n: int) -> CoreView {
        let pred = self.roll_pred(n);
        let nth = self.roll_nth(n);
        let kp = self.kp();
        let v1 = self.set_cell(pred, Quad { y: self.cell(nth).y, ..self.cell(pred) });
        let v2 = v1.set_cell(nth, Quad { y: self.sp(), ..v1.cell(nth) });
        v2.set_cell(kp, Quad { x: nth, ..v2.cell(kp) })
    }
}

/// The first roll of a ready stack succeeds, and what it leaves.
proof fn lemma_roll_up(v: CoreView, n: int)
    requires
        v.roll_ready(n),
    ensures
        v.stack_roll_step(n) == (Ok::<(), crate::value::Error>(()), v.rolled_up(n)),
        v.rolled_up(n).wf(),
        v.rolled_up(n).kp() == v.kp(),
        v.rolled_up(n).sp() == v.roll_nth(n),
        v.rolled_up(n).cell(v.roll_nth(n)) == (Quad { y: v.sp(), ..v.cell(v.roll_nth(n)) }),
        v.rolled_up(n).cell(v.roll_pred(n)) == (Quad { y: v.cell(v.roll_nth(n)).y, ..v.cell(v.roll_pred(n)) }),
        v.rolled_up(n).cell(v.kp()) == (Quad { x: v.roll_nth(n), ..v.cell(v.kp()) }),
        v.rolled_up(n).ram_top() == v.ram_top(),
        forall|b: Any| readable(b) ==> #[trigger] v.rolled_up(n).cell(b).t == v.cell(b).t,
        forall|b: Any| readable(b) && !same_cell(b, v.roll_pred(n)) && !same_cell(b, v.roll_nth(n))
            && !same_cell(b, v.kp()) ==> #[trigger] v.rolled_up(n).cell(b) == v.cell(b),
{
    let sp = v.sp();
    let kp = v.kp();
    let ss = v.spine(sp, n as nat);
    lemma_spine_links(v, sp, n as nat);
    crate::lists::lemma_spine_valid(v, sp, n as nat);
    crate::value::lemma_ram_ptr(v.phase(), 1);
    let pred = ss[n - 2];
    let nth = ss[n - 1];
    let after = v.cell(nth).y;
    assert(v.typeq(PAIR_T, pred) && v.typeq(PAIR_T, nth));
    assert(writable(pred) && writable(nth));
    lemma_split_from_spine(v, UNDEF, sp, n, n as nat);
    assert(v.split_from(UNDEF, sp, n) == (pred, nth));
    let q1 = Quad { y: after, ..v.cell(pred) };
    let v1 = v.set_cell(pred, q1);
    v.lemma_set_cell_keeps_types(pred, q1);
    v.lemma_set_cell_same(pred, q1, pred);
    assert(v1.cell(nth) == v.cell(nth)) by {
        v.lemma_set_cell_other(pred, q1, nth);
    }
    assert(v1.cell(v.ddeque()) == v.cell(v.ddeque())) by {
        v.lemma_set_cell_other(pred, q1, v.ddeque());
    }
    assert(v1.kp() == kp);
    assert(v.try_set_cdr_step(pred, v.cdr(nth)) == (Ok::<(), crate::value::Error>(()), v1));
    let q2 = Quad { y: sp, ..v1.cell(nth) };
    let v2 = v1.set_cell(nth, q2);
    v1.lemma_set_cell_keeps_types(nth, q2);
    v1.lemma_set_cell_same(nth, q2, nth);
    assert(v2.cell(pred) == q1) by {
        v1.lemma_set_cell_other(nth, q2, pred);
    }
    assert(v2.cell(v.ddeque()) == v.cell(v.ddeque())) by {
        v1.lemma_set_cell_other(nth, q2, v.ddeque());
    }
    assert(v2.kp() == kp);
    assert(v2.cell(kp) == v.cell(kp)) by {
        v.lemma_set_cell_other(pred, q1, kp);
        v1.lemma_set_cell_other(nth, q2, kp);
    }
    assert(v1.try_set_cdr_step(nth, sp) == (Ok::<(), crate::value::Error>(()), v2));
    let q3 = Quad { x: nth, ..v2.cell(kp) };
    let v3 = v2.set_cell(kp, q3);
    v2.lemma_set_cell_keeps_types(kp, q3);
    v2.lemma_set_cell_same(kp, q3, kp);
    assert(v3.cell(pred) == q1) by {
        v2.lemma_set_cell_other(kp, q3, pred);
    }
    assert(v3.cell(nth) == q2) by {
        v2.lemma_set_cell_other(kp, q3, nth);
    }
    assert(v3.kp() == kp) by {
        if same_cell(kp, v.ddeque()) {
            v2.lemma_set_cell_same(kp, q3, v.ddeque());
        } else {
            v2.lemma_set_cell_other(kp, q3, v.ddeque());
        }
    }
    assert(v3 == v.rolled_up(n));
    assert forall|b: Any| readable(b) && !same_cell(b, pred) && !same_cell(b, nth) && !same_cell(b, kp)
        implies #[trigger] v3.cell(b) == v.cell(b) by {
        v.lemma_set_cell_other(pred, q1, b);
        v1.lemma_set_cell_other(nth, q2, b);
        v2.lemma_set_cell_other(kp, q3, b);
    }
}

/// After the first roll the stack is the `n`-th pair followed by the first
/// `n - 1` pairs, so the second roll finds the old `n - 1`-th pair at
/// position `n`.
proof fn lemma_roll_walk(v: CoreView, n: int)
    requires
        v.roll_ready(n),
    ensures
        v.rolled_up(n).split_from(UNDEF, v.roll_nth(n), n).1 == v.roll_pred(n),
        v.rolled_up(n).typeq(PAIR_T, v.roll_pred(n)),
        v.rolled_up(n).typeq(PAIR_T, v.roll_nth(n)),
{
    let sp = v.sp();
    let kp = v.kp();
    let ss = v.spine(sp, n as nat);
    let pred = v.roll_pred(n);
    let nth = v.roll_nth(n);
    let v3 = v.rolled_up(n);
    lemma_roll_up(v, n);
    lemma_spine_links(v, sp, n as nat);
    crate::lists::lemma_spine_valid(v, sp, n as nat);
    lemma_spine_prefix(v, sp, n as nat, (n - 1) as nat);
    let pre = v.spine(sp, (n - 1) as nat);
    assert(pre == ss.take(n - 1));
    assert forall|i: int| 0 <= i < n - 1 implies #[trigger] v3.cell(pre[i]).t == v.cell(pre[i]).t by {
        assert(pre[i] == ss[i]);
        assert(readable(ss[i]));
    }
    assert forall|i: int| 0 <= i < n - 2 implies #[trigger] v3.cell(pre[i]).y == v.cell(pre[i]).y by {
        assert(pre[i] == ss[i]);
        assert(readable(ss[i]));
        assert(!same_cell(ss[i], ss[n - 2]));
        assert(!same_cell(ss[i], ss[n - 1]));
        assert(!same_cell(ss[i], kp));
        assert(v3.cell(ss[i]) == v.cell(ss[i]));
    }
    lemma_spine_frame(v, v3, sp, (n - 1) as nat);
    assert(readable(nth) && readable(pred));
    assert(v3.cell(nth).t == v.cell(nth).t);
    assert(v3.cell(pred).t == v.cell(pred).t);
    assert(v3.typeq(PAIR_T, nth));
    assert(v3.cell(nth).y == sp);
    let t = v3.spine(nth, n as nat);
    assert(t == seq![nth] + v3.spine(sp, (n - 1) as nat));
    assert(t.len() == n);
    lemma_split_from_spine(v3, UNDEF, nth, n, n as nat);
    assert(t[n - 1] == pre[n - 2]);
    assert(pre[n - 2] == ss[n - 2]);
}

impl CoreView {
    /// Writing a RAM cell without changing its `t` field keeps the phase,
    /// the top of the heap and well-formedness.
    pub proof fn lemma_write_keeps_top(self, a: Any, q: Quad)
        requires
            self.wf(),
            writable(a),
            q.t == self.cell(a).t,
            valid_at(a, q),
        ensures
            self.set_cell(a, q).wf(),
            self.set_cell(a, q).phase() == self.phase(),
            self.set_cell(a, q).memory() == self.memory(),
            self.set_cell(a, q).ddeque() == self.ddeque(),
            self.set_cell(a, q).ram_top() == self.ram_top(),
    {
        self.lemma_set_cell_keeps_types(a, q);
    }
}

/// The second roll of a stack left by the first one puts the stack pointer
/// and the two links back.
proof fn lemma_roll_down(v3: CoreView, n: int, kp: Any, sp: Any, pred: Any, nth: Any, after: Any)
    requires
        v3.wf(),
        1 < n < 64,
        writable(kp),
        writable(pred),
        writable(nth),
        !same_cell(pred, nth),
        !same_cell(pred, kp),
        !same_cell(nth, kp),
        !same_cell(kp, v3.ddeque()) || v3.cell(kp).y == v3.cell(v3.ddeque()).y,
        v3.kp() == kp,
        v3.cell(kp).x == nth,
        v3.cell(nth).y == sp,
        v3.cell(pred).y == after,
        v3.cell(nth).t == PAIR_T,
        v3.cell(pred).t == PAIR_T,
        v3.in_heap(pred),
        v3.in_heap(nth),
        v3.split_from(UNDEF, nth, n).1 == pred,
        valid(sp),
        valid(after),
    ensures
        ({
            let v4 = v3.set_cell(kp, Quad { x: sp, ..v3.cell(kp) });
            let v5 = v4.set_cell(nth, Quad { y: after, ..v4.cell(nth) });
            let v6 = v5.set_cell(pred, Quad { y: nth, ..v5.cell(pred) });
            v3.stack_roll_step(-n) == (Ok::<(), crate::value::Error>(()), v6)
        }),
{
    crate::value::lemma_ram_ptr(v3.phase(), 1);
    lemma_cell_fields_valid(v3, kp);
    lemma_cell_fields_valid(v3, nth);
    lemma_cell_fields_valid(v3, pred);
    assert(v3.kp_ok());
    assert(v3.sp() == nth);
    assert(v3.typeq(PAIR_T, nth));
    assert(v3.typeq(PAIR_T, pred));
    assert(v3.cdr(nth) == sp);
    let q4 = Quad { x: sp, ..v3.cell(kp) };
    let v4 = v3.set_cell(kp, q4);
    v3.lemma_write_keeps_top(kp, q4);
    v3.lemma_set_cell_other(kp, q4, pred);
    v3.lemma_set_cell_other(kp, q4, nth);
    assert(v4.kp() == kp) by {
        if same_cell(kp, v3.ddeque()) {
            v3.lemma_set_cell_same(kp, q4, v3.ddeque());
        } else {
            v3.lemma_set_cell_other(kp, q4, v3.ddeque());
        }
    }
    assert(v4 == v3.set_sp_state(v3.cdr(nth)));
    assert(v4.cdr(pred) == after);
    let q5 = Quad { y: after, ..v4.cell(nth) };
    let v5 = v4.set_cell(nth, q5);
    v4.lemma_write_keeps_top(nth, q5);
    v4.lemma_set_cell_other(nth, q5, pred);
    assert(v4.try_set_cdr_step(nth, v4.cdr(pred)) == (Ok::<(), crate::value::Error>(()), v5));
    let q6 = Quad { y: nth, ..v5.cell(pred) };
    let v6 = v5.set_cell(pred, q6);
    assert(v5.try_set_cdr_step(pred, nth) == (Ok::<(), crate::value::Error>(()), v6));
}

/// Rolling the `n`-th stack item to the top and then rolling the top item
/// back down to position `n` gives the machine back exactly as it was, when
/// the stack has at least `n` pairs, all distinct and distinct from the
/// continuation and queue cells, and the two pairs that are relinked lie in
/// the heap.
#[verifier::spinoff_prover]
#[verifier::rlimit(50)]
pub proof fn law_stack_roll_round_trip(v: CoreView, n: int)
    requires
        v.roll_ready(n),
    ensures
        v.stack_roll_step(n).0 == Ok::<(), crate::value::Error>(()),
        v.stack_roll_step(n).1.stack_roll_step(-n).0 == Ok::<(), crate::value::Error>(()),
        v.stack_roll_step(n).1.stack_roll_step(-n).1 == v,
{
    let sp = v.sp();
    let kp = v.kp();
    let ss = v.spine(sp, n as nat);
    let pred = v.roll_pred(n);
    let nth = v.roll_nth(n);
    let after = v.cell(nth).y;
    let v3 = v.rolled_up(n);
    lemma_roll_up(v, n);
    lemma_roll_walk(v, n);
    lemma_spine_links(v, sp, n as nat);
    crate::lists::lemma_spine_valid(v, sp, n as nat);
    assert(ss[(n - 2) + 1] == v.cell(ss[n - 2]).y);
    assert(v.cell(pred).y == nth);
    assert(readable(pred) && readable(nth) && writable(pred) && writable(nth));
    assert(!same_cell(pred, nth));
    lemma_cell_fields_valid(v, nth);
    lemma_cell_fields_valid(v, kp);
    crate::value::lemma_ram_ptr(v.phase(), 1);
    assert(v3.ddeque() == v.ddeque());
    assert(!same_cell(kp, v3.ddeque()) || v3.cell(kp).y == v3.cell(v3.ddeque()).y);
    lemma_roll_down(v3, n, kp, sp, pred, nth, after);
    let v4 = v3.set_cell(kp, Quad { x: sp, ..v3.cell(kp) });
    let v5 = v4.set_cell(nth, Quad { y: after, ..v4.cell(nth) });
    let v6 = v5.set_cell(pred, Quad { y: nth, ..v5.cell(pred) });
    assert(v6 =~= v) by {
        assert(v6.ram0 =~= v.ram0);
        assert(v6.ram1 =~= v.ram1);
    }
}

/// A reference into RAM outside bank `bank`.
pub open spec fn foreign(a: Any, bank: Raw) -> bool {
    spec_is_ram(a) && spec_bank(a) != Some(bank)
}

/// A cell none of whose fields refers into RAM outside bank `bank`.
pub open spec fn refs_within(q: Quad, bank: Raw) -> bool {
    !foreign(q.t, bank) && !foreign(q.x, bank) && !foreign(q.y, bank) && !foreign(q.z, bank)
}

impl CoreView {
    /// The cell at offset `j` of RAM bank `b`.
    pub open spec fn bank_cell(self, b: Raw, j: int) -> Quad {
        if b == BNK_1 {
            self.ram1[j]
        } else {
            self.ram0[j]
        }
    }

    /// The cells of bank `bank` below offset `n` refer only into that bank.
    pub open spec fn closed_below(self, bank: Raw, n: int) -> bool {
        forall|j: int| 0 <= j < n ==> refs_within(#[trigger] self.bank_cell(bank, j), bank)
    }

    /// Every forwarding cell of the other bank leads into `bank`.
    pub open spec fn forwards_into(self, bank: Raw) -> bool {
        forall|j: int| 0 <= j < QUAD_RAM_MAX && (#[trigger] self.bank_cell(other_bank(bank), j)).t == GC_FWD_T
            ==> !foreign(self.bank_cell(other_bank(bank), j).z, bank)
    }

    /// The collector's state while it copies into `bank`, with the cells
    /// below offset `s` already scanned: allocation takes cells from the top
    /// of `bank`, and forwarding cells lead into `bank`.
    pub open spec fn copying(self, bank: Raw, s: int) -> bool {
        &&& self.wf()
        &&& is_bank(bank)
        &&& self.phase() == bank
        &&& self.ram_next() == NIL
        &&& !foreign(self.ram_free(), bank)
        &&& self.forwards_into(bank)
        &&& spec_is_ram(self.ram_top())
        &&& !opq_bit(self.ram_top())
        &&& spec_bank(self.ram_top()) == Some(bank)
        &&& 0 <= s <= spec_ofs(self.ram_top())
        &&& 1 <= spec_ofs(self.ram_top())
        &&& self.closed_below(bank, s)
    }
}

/// The cell a RAM reference designates is the cell at its offset in its bank.
pub proof fn lemma_cell_in_bank(v: CoreView, a: Any)
    requires
        spec_is_ram(a),
    ensures
        v.cell(a) == v.bank_cell(spec_bank(a)->0, spec_ofs(a) as int),
{
}

/// Writing a RAM cell changes that cell of its bank and no other.
pub proof fn lemma_bank_cell_set(v: CoreView, a: Any, q: Quad, b: Raw, j: int)
    requires
        v.wf(),
        spec_is_ram(a),
        valid(a),
        is_bank(b),
        0 <= j < QUAD_RAM_MAX,
    ensures
        v.set_cell(a, q).bank_cell(b, j) == (if spec_bank(a) == Some(b) && spec_ofs(a) == j {
            q
        } else {
            v.bank_cell(b, j)
        }),
{
}

impl CoreView {
    /// Writing into a RAM cell what may stand there keeps memory well-formed.
    pub proof fn lemma_set_cell_wf(self, a: Any, q: Quad)
        requires
            self.wf(),
            spec_is_ram(a),
            valid(a),
            valid_at(a, q),
        ensures
            self.set_cell(a, q).wf(),
    {
        let w = self.set_cell(a, q);
        assert forall|i: int| 1 <= i < QUAD_RAM_MAX implies valid_quad(#[trigger] w.ram0[i]) by {
            lemma_bank_cell_set(self, a, q, BNK_0, i);
        }
        assert forall|i: int| 1 <= i < QUAD_RAM_MAX implies valid_quad(#[trigger] w.ram1[i]) by {
            lemma_bank_cell_set(self, a, q, BNK_1, i);
        }
        lemma_bank_cell_set(self, a, q, BNK_0, 0);
        lemma_bank_cell_set(self, a, q, BNK_1, 0);
    }
}

/// Marking a value while copying into `bank` gives a value that refers into
/// `bank` (or outside RAM), and keeps the copying state: a copied cell goes
/// to the top of `bank` and its old cell becomes a forwarding cell into it.
#[verifier::spinoff_prover]
#[verifier::rlimit(40)]
proof fn lemma_mark_within(u: CoreView, bank: Raw, s: int, val: Any)
    requires
        u.copying(bank, s),
        valid(val),
        u.gc_mark_within_step(val, bank).0 is Ok,
    ensures
        ({
            let (r, u1) = u.gc_mark_within_step(val, bank);
            &&& r matches Ok(a) ==> !foreign(a, bank) && valid(a)
            &&& u1.copying(bank, s)
            &&& spec_ofs(u1.ram_top()) >= spec_ofs(u.ram_top())
        }),
{
    reveal(CoreView::gc_mark_step);
    let quad = u.cell(val);
    let other = other_bank(bank);
    crate::value::lemma_ram_ptr(bank, 0);
    assert(u.rom[1] == mk(LITERAL_T, UNDEF, UNDEF, UNDEF));
    assert(!u.free_path());
    if spec_is_ram(val) && spec_bank(val) != Some(u.phase()) {
        lemma_cell_in_bank(u, val);
        assert(spec_bank(val) == Some(other));
        if quad.t != GC_FWD_T {
            let p = u.reserve_ptr();
            assert(p == u.ram_top());
            u.lemma_reserve_cell(quad);
            let v1 = u.reserve_state(quad);
            let dup = if spec_is_cap(val) { set_opq(p) } else { p };
            let fq = mk(GC_FWD_T, UNDEF, UNDEF, dup);
            let u1 = v1.set_cell(val, fq);
            assert(spec_bank(dup) == Some(bank));
            assert(valid(dup));
            v1.lemma_set_cell_wf(val, fq);
            // the memory descriptor of `bank`: only its top moved
            let m = u.memory();
            let newtop = crate::value::spec_ram_ptr(bank, (spec_ofs(p) + 1) as usize);
            crate::value::lemma_ram_ptr(bank, (spec_ofs(p) + 1) as usize);
            let qm = Quad { t: newtop, ..u.mem_cell() };
            let v0 = u.set_memory(qm);
            assert(v1 == v0.set_cell(p, quad));
            lemma_bank_cell_set(u, m, qm, bank, 0);
            lemma_bank_cell_set(v0, p, quad, bank, 0);
            lemma_bank_cell_set(v1, val, fq, bank, 0);
            assert(u1.bank_cell(bank, 0) == qm);
            assert(u1.memory() == m);
            assert(u1.cell(m) == qm) by {
                lemma_cell_in_bank(u1, m);
            }
            assert(u1.ram_next() == NIL);
            assert(u1.ram_top() == newtop);
            assert forall|j: int| 0 <= j < s implies refs_within(#[trigger] u1.bank_cell(bank, j), bank) by {
                lemma_bank_cell_set(u, m, qm, bank, j);
                lemma_bank_cell_set(v0, p, quad, bank, j);
                lemma_bank_cell_set(v1, val, fq, bank, j);
                assert(refs_within(u.bank_cell(bank, j), bank));
            }
            assert forall|j: int| 0 <= j < QUAD_RAM_MAX && (#[trigger] u1.bank_cell(other, j)).t == GC_FWD_T
                implies !foreign(u1.bank_cell(other, j).z, bank) by {
                lemma_bank_cell_set(u, m, qm, other, j);
                lemma_bank_cell_set(v0, p, quad, other, j);
                lemma_bank_cell_set(v1, val, fq, other, j);
            }
        }
    }
}

/// Scanning the next cell of `bank` while copying leaves it referring only
/// into `bank`, so one more cell is scanned.
#[verifier::spinoff_prover]
#[verifier::rlimit(40)]
proof fn lemma_scan_within(u: CoreView, bank: Raw, c: Any)
    requires
        u.copying(bank, spec_ofs(c) as int),
        c == crate::value::spec_ram_ptr(bank, spec_ofs(c)),
        1 <= spec_ofs(c) < spec_ofs(u.ram_top()),
        u.gc_scan_step(c).0 is Ok,
    ensures
        u.gc_scan_step(c).1.copying(bank, spec_ofs(c) + 1),
        spec_ofs(u.gc_scan_step(c).1.ram_top()) >= spec_ofs(u.ram_top()),
{
    let s = spec_ofs(c) as int;
    crate::value::lemma_ram_ptr(bank, spec_ofs(c));
    let quad = u.cell(c);
    assert(valid_quad(quad));
    let (r1, v1) = u.gc_mark_within_step(quad.t, bank);
    lemma_mark_within(u, bank, s, quad.t);
    let t = r1->Ok_0;
    let (r2, v2) = v1.gc_mark_within_step(quad.x, bank);
    lemma_mark_within(v1, bank, s, quad.x);
    let x = r2->Ok_0;
    let (r3, v3) = v2.gc_mark_within_step(quad.y, bank);
    lemma_mark_within(v2, bank, s, quad.y);
    let y = r3->Ok_0;
    let (r4, v4) = v3.gc_mark_within_step(quad.z, bank);
    lemma_mark_within(v3, bank, s, quad.z);
    let z = r4->Ok_0;
    let q = mk(t, x, y, z);
    let w = v4.set_cell(c, q);
    assert(u.gc_scan_step(c) == (Ok::<(), crate::value::Error>(()), w));
    v4.lemma_set_cell_wf(c, q);
    let m = v4.memory();
    let other = other_bank(bank);
    crate::value::lemma_ram_ptr(bank, 0);
    lemma_bank_cell_set(v4, c, q, bank, 0);
    lemma_bank_cell_set(v4, c, q, crate::value::BNK_0, 0);
    assert(w.phase() == v4.phase());
    assert(w.cell(m) == v4.cell(m)) by {
        lemma_cell_in_bank(w, m);
        lemma_cell_in_bank(v4, m);
    }
    assert forall|j: int| 0 <= j < s + 1 implies refs_within(#[trigger] w.bank_cell(bank, j), bank) by {
        lemma_bank_cell_set(v4, c, q, bank, j);
        if j < s {
            assert(refs_within(v4.bank_cell(bank, j), bank));
        }
    }
    assert forall|j: int| 0 <= j < QUAD_RAM_MAX && (#[trigger] w.bank_cell(other, j)).t == GC_FWD_T
        implies !foreign(w.bank_cell(other, j).z, bank) by {
        lemma_bank_cell_set(v4, c, q, other, j);
    }
}

/// Scanning the cells of `bank` from `scan` up to the top, while copying,
/// ends with every cell below the top referring only into `bank`.
#[verifier::spinoff_prover]
#[verifier::rlimit(40)]
proof fn lemma_scan_loop_within(u: CoreView, bank: Raw, scan: Any, fuel: nat)
    requires
        u.copying(bank, spec_ofs(scan) as int),
        scan == crate::value::spec_ram_ptr(bank, spec_ofs(scan)),
        1 <= spec_ofs(scan),
        u.gc_scan_loop(scan, bank, fuel).0 is Ok,
    ensures
        u.gc_scan_loop(scan, bank, fuel).1.copying(bank, spec_ofs(u.gc_scan_loop(scan, bank, fuel).1.ram_top()) as int),
    decreases fuel,
{
    let top = u.ram_top();
    assert(top == crate::value::spec_ram_ptr(bank, spec_ofs(top)));
    if scan != top {
        assert(spec_ofs(scan) < spec_ofs(top));
        lemma_scan_within(u, bank, scan);
        let v1 = u.gc_scan_step(scan).1;
        let next = (scan + 1) as Any;
        crate::value::lemma_ram_ptr(bank, (spec_ofs(scan) + 1) as usize);
        assert(next == crate::value::spec_ram_ptr(bank, (spec_ofs(scan) + 1) as usize));
        assert(spec_ofs(next) == spec_ofs(scan) + 1);
        lemma_scan_loop_within(v1, bank, next, (fuel - 1) as nat);
    }
}

/// Marking the reserved cells from `scan` on, while copying, keeps the
/// copying state.
#[verifier::spinoff_prover]
#[verifier::rlimit(40)]
proof fn lemma_reserved_loop_within(u: CoreView, bank: Raw, scan: Any)
    requires
        u.copying(bank, 0),
        spec_is_ram(scan),
        !spec_is_cap(scan),
        spec_ofs(scan) <= crate::cpu::RAM_BASE_OFS,
        u.gc_reserved_loop(scan, bank).0 is Ok,
    ensures
        u.gc_reserved_loop(scan, bank).1.copying(bank, 0),
    decreases crate::cpu::RAM_BASE_OFS - spec_ofs(scan),
{
    if spec_ofs(scan) < crate::cpu::RAM_BASE_OFS {
        let mark = if u.cell(scan).t == crate::value::ACTOR_T { set_opq(scan) } else { scan };
        assert(valid(mark));
        assert(u.gc_mark_within_step(mark, bank).0 is Ok);
        lemma_mark_within(u, bank, 0, mark);
        let v1 = u.gc_mark_step(mark).1;
        let b = if bnk_bit(scan) { BNK_1 } else { BNK_0 };
        crate::value::lemma_ram_ptr(b, (spec_ofs(scan) + 1) as usize);
        assert((scan + 1) as Any == crate::value::spec_ram_ptr(b, (spec_ofs(scan) + 1) as usize));
        lemma_reserved_loop_within(v1, bank, (scan + 1) as Any);
    }
}

/// A successful collection switches half-spaces and leaves no reference into
/// the abandoned one in the new heap: every cell of the new half-space below
/// the top of the heap refers only into the new half-space (or outside RAM).
/// This holds when the live half-space holds no forwarding cells when the
/// collection starts.
#[verifier::spinoff_prover]
#[verifier::rlimit(40)]
pub proof fn law_gc_closes_heap(v: CoreView)
    requires
        v.wf(),
        forall|j: int| 0 <= j < QUAD_RAM_MAX ==> (#[trigger] v.bank_cell(v.phase(), j)).t != GC_FWD_T,
        v.gc_step().0 is Ok,
    ensures
        ({
            let w = v.gc_step().1;
            &&& w.phase() == other_bank(v.phase())
            &&& w.closed_below(w.phase(), spec_ofs(w.ram_top()) as int)
        }),
{
    let old_bank = v.phase();
    let bank = other_bank(old_bank);
    let ddeque = v.ddeque();
    let root = v.ram_root();
    crate::value::lemma_ram_ptr(old_bank, 0);
    crate::value::lemma_ram_ptr(old_bank, 1);
    crate::value::lemma_ram_ptr(bank, 0);
    crate::value::lemma_ram_ptr(bank, 1);
    let m0 = v.memory();
    let q1 = Quad { t: UNDEF, ..v.mem_cell() };
    let v1 = v.set_memory(q1);
    lemma_cell_fields_valid(v, m0);
    v.lemma_set_cell_wf(m0, q1);
    let m = crate::value::spec_ram_ptr(bank, 0);
    let q2 = mk(crate::value::spec_ram_ptr(bank, 1), NIL, ZERO, root);
    let v2 = v1.set_cell(m, q2);
    v1.lemma_set_cell_wf(m, q2);
    assert(v2.phase() == bank);
    assert(v2.memory() == m);
    lemma_bank_cell_set(v1, m, q2, bank, 0);
    assert(v2.cell(m) == q2) by {
        lemma_cell_in_bank(v2, m);
    }
    assert forall|j: int| 0 <= j < QUAD_RAM_MAX && (#[trigger] v2.bank_cell(old_bank, j)).t == GC_FWD_T
        implies !foreign(v2.bank_cell(old_bank, j).z, bank) by {
        lemma_bank_cell_set(v, m0, q1, old_bank, j);
        lemma_bank_cell_set(v1, m, q2, old_bank, j);
    }
    assert(other_bank(bank) == old_bank);
    assert(v2.copying(bank, 0));
    let (r3, v3) = v2.gc_reserved_loop(ddeque, bank);
    lemma_reserved_loop_within(v2, bank, ddeque);
    let (r4, v4) = v3.gc_mark_step(root);
    lemma_cell_fields_valid(v, m0);
    assert(valid(root));
    assert(v3.gc_mark_within_step(root, bank).0 is Ok);
    lemma_mark_within(v3, bank, 0, root);
    let root2 = r4->Ok_0;
    let m3 = v4.memory();
    let q5 = Quad { z: root2, ..v4.mem_cell() };
    let v5 = v4.set_memory(q5);
    assert(m3 == m);
    assert(v4.cell(m) == v4.bank_cell(bank, 0)) by {
        lemma_cell_in_bank(v4, m);
    }
    lemma_cell_fields_valid(v4, m);
    v4.lemma_set_cell_wf(m, q5);
    lemma_bank_cell_set(v4, m, q5, bank, 0);
    assert(v5.phase() == bank);
    assert(v5.cell(m) == q5) by {
        lemma_cell_in_bank(v5, m);
    }
    assert forall|j: int| 0 <= j < 1 implies refs_within(#[trigger] v5.bank_cell(bank, j), bank) by {
        assert(j == 0);
    }
    assert forall|j: int| 0 <= j < QUAD_RAM_MAX && (#[trigger] v5.bank_cell(old_bank, j)).t == GC_FWD_T
        implies !foreign(v5.bank_cell(old_bank, j).z, bank) by {
        lemma_bank_cell_set(v4, m, q5, old_bank, j);
    }
    assert(v5.copying(bank, 1));
    let scan = v5.ddeque();
    assert(scan == crate::value::spec_ram_ptr(bank, 1));
    lemma_scan_loop_within(v5, bank, scan, QUAD_RAM_MAX as nat);
}

} // verus!
