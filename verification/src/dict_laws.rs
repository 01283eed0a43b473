//! What deleting from a dictionary does to its bindings.
//!
//! A dictionary is a chain of entries; deleting a key copies the entries in
//! front of its first entry into new cells and shares the rest. The law below
//! holds when every new cell comes from the top of the heap and the cells the
//! old chain and the current sponsor use lie below it.
use vstd::prelude::*;
use crate::value::{Any, Error, spec_is_ram, spec_ofs, spec_bank, spec_fix, opq_bit, DICT_T, FREE_T, UNDEF, NIL};
use crate::quad::{Quad, mk, valid, valid_quad};
use crate::cpu::{CoreView, same_cell, readable, writable};
use crate::lists::{WALK_MAX, lemma_cell_fields_valid};
use crate::laws::lemma_dict_path_valid;

verus! {

/// A binding sequence without its first binding of `key`.
pub open spec fn remove_first(s: Seq<(Any, Any)>, key: Any) -> Seq<(Any, Any)>
    decreases s.len(),
{
    if s.len() == 0 {
        s
    } else if s[0].0 == key {
        s.drop_first()
    } else {
        seq![s[0]] + remove_first(s.drop_first(), key)
    }
}

/// The value of the first binding of `key` in a binding sequence.
pub open spec fn first_binding(s: Seq<(Any, Any)>, key: Any) -> Option<Any>
    decreases s.len(),
{
    if s.len() == 0 {
        None
    } else if s[0].0 == key {
        Some(s[0].1)
    } else {
        first_binding(s.drop_first(), key)
    }
}

impl CoreView {
    /// The bindings of a dictionary, first entry first, at most `fuel` of them.
    pub open spec fn dict_entries(self, d: Any, fuel: nat) -> Seq<(Any, Any)>
        decreases fuel,
    {
        if fuel == 0 || !self.typeq(DICT_T, d) {
            Seq::empty()
        } else {
            seq![(self.cell(d).x, self.cell(d).y)] + self.dict_entries(self.cell(d).z, (fuel - 1) as nat)
        }
    }

    /// The chain of a dictionary ends (in something that is not an entry)
    /// within `fuel` entries.
    pub open spec fn dict_ends(self, d: Any, fuel: nat) -> bool
        decreases fuel,
    {
        if fuel == 0 {
            false
        } else if !self.typeq(DICT_T, d) {
            true
        } else {
            self.dict_ends(self.cell(d).z, (fuel - 1) as nat)
        }
    }

    /// Allocation takes the cell at the top of the heap (the free list is
    /// empty), and the cells that lead to the current sponsor, and the
    /// sponsor's own, lie below it.
    pub open spec fn top_alloc(self) -> bool {
        let s = self.cur_sponsor();
        let top = self.ram_top();
        &&& !self.free_path()
        &&& spec_is_ram(top)
        &&& !opq_bit(top)
        &&& spec_bank(top) == Some(self.phase())
        &&& self.in_heap(self.ddeque())
        &&& self.in_heap(s)
        &&& spec_ofs(s) != 0
        &&& spec_is_ram(self.kp()) ==> self.in_heap(self.kp())
        &&& spec_is_ram(self.ep()) ==> self.in_heap(self.ep()) && !same_cell(self.ep(), s)
            && spec_ofs(self.ep()) != 0
    }

    /// The references a walk of dictionary `d` looks at lie below the top of
    /// the heap and are neither the current sponsor's cell nor the memory
    /// descriptor.
    pub open spec fn dict_spared(self, d: Any, fuel: nat) -> bool {
        forall|i: int|
            0 <= i < self.dict_path(d, fuel).len() && spec_is_ram(#[trigger] self.dict_path(d, fuel)[i])
                ==> self.in_heap(self.dict_path(d, fuel)[i]) && !same_cell(self.dict_path(d, fuel)[i], self.cur_sponsor())
                && !same_cell(self.dict_path(d, fuel)[i], self.memory())
    }
}

/// Walks of a dictionary agree in two memories that agree on the cells the
/// walk looks at.
pub proof fn lemma_dict_frame(v: CoreView, w: CoreView, d: Any, fuel: nat)
    requires
        forall|i: int| 0 <= i < v.dict_path(d, fuel).len() && crate::value::spec_is_ptr(#[trigger] v.dict_path(d, fuel)[i])
            ==> w.cell(v.dict_path(d, fuel)[i]) == v.cell(v.dict_path(d, fuel)[i]),
    ensures
        w.dict_path(d, fuel) == v.dict_path(d, fuel),
        w.dict_entries(d, fuel) == v.dict_entries(d, fuel),
        w.dict_ends(d, fuel) == v.dict_ends(d, fuel),
    decreases fuel,
{
    if fuel > 0 {
        let s = v.dict_path(d, fuel);
        assert(s[0] == d);
        if v.typeq(DICT_T, d) {
            let t = v.dict_path(v.cell(d).z, (fuel - 1) as nat);
            assert forall|i: int| 0 <= i < t.len() && crate::value::spec_is_ptr(#[trigger] t[i]) implies w.cell(t[i]) == v.cell(t[i]) by {
                assert(t[i] == s[i + 1]);
            }
            lemma_dict_frame(v, w, v.cell(d).z, (fuel - 1) as nat);
        }
    }
}

/// Once a chain ends within `f1` entries, more fuel changes nothing.
pub proof fn lemma_dict_ends_stable(v: CoreView, d: Any, f1: nat, f2: nat)
    requires
        v.dict_ends(d, f1),
        f1 <= f2,
    ensures
        v.dict_ends(d, f2),
        v.dict_entries(d, f2) == v.dict_entries(d, f1),
        v.dict_path(d, f2) == v.dict_path(d, f1),
    decreases f1,
{
    if v.typeq(DICT_T, d) {
        lemma_dict_ends_stable(v, v.cell(d).z, (f1 - 1) as nat, (f2 - 1) as nat);
    }
}

/// Lookups read the first binding.
pub proof fn lemma_lookup_entries(v: CoreView, d: Any, key: Any, fuel: nat)
    ensures
        v.dict_lookup(d, key, fuel) == first_binding(v.dict_entries(d, fuel), key),
    decreases fuel,
{
    if fuel > 0 && v.typeq(DICT_T, d) {
        lemma_lookup_entries(v, v.cell(d).z, key, (fuel - 1) as nat);
        let s = v.dict_entries(d, fuel);
        assert(s.drop_first() =~= v.dict_entries(v.cell(d).z, (fuel - 1) as nat));
    }
}

/// Removing the first binding of one key leaves the first binding of every
/// other key.
pub proof fn lemma_remove_first_other(s: Seq<(Any, Any)>, key: Any, other: Any)
    requires
        other != key,
    ensures
        first_binding(remove_first(s, key), other) == first_binding(s, other),
    decreases s.len(),
{
    if s.len() > 0 && s[0].0 != key {
        lemma_remove_first_other(s.drop_first(), key, other);
        assert((seq![s[0]] + remove_first(s.drop_first(), key)).drop_first() =~= remove_first(s.drop_first(), key));
    }
}

/// An allocation from the top of the heap: it takes the top cell, moves the
/// top up by one, keeps the cells below the top (but the sponsor's) and the
/// current sponsor, and so keeps allocating from the top; a dictionary
/// whose walk it spares keeps its walk.
pub proof fn lemma_top_alloc(u: CoreView, init: Quad, d: Any, f: nat)
    requires
        u.wf(),
        u.top_alloc(),
        valid_quad(init),
        init.t != FREE_T,
        u.alloc_outcome(init) is Ok,
        valid(d),
        u.dict_spared(d, f),
    ensures
        ({
            let w = u.alloc_state(init);
            let p = u.ram_top();
            let s = u.cur_sponsor();
            &&& u.reserve_ptr() == p
            &&& w.wf()
            &&& w.top_alloc()
            &&& w.cur_sponsor() == s
            &&& w.memory() == u.memory()
            &&& w.cell(p) == init
            &&& spec_ofs(w.ram_top()) == spec_ofs(p) + 1
            &&& w.in_heap(p)
            &&& !same_cell(p, s)
            &&& spec_ofs(p) != 0
            &&& w.dict_path(d, f) == u.dict_path(d, f)
            &&& w.dict_entries(d, f) == u.dict_entries(d, f)
            &&& w.dict_ends(d, f) == u.dict_ends(d, f)
            &&& w.dict_spared(d, f)
            &&& forall|b: Any| readable(b) && u.in_heap(b) && !same_cell(b, s) && !same_cell(b, u.memory())
                ==> #[trigger] w.cell(b) == u.cell(b)
        }),
{
    let w = u.alloc_state(init);
    let p = u.ram_top();
    let s = u.cur_sponsor();
    let m = u.memory();
    crate::value::lemma_ram_ptr(u.phase(), 0);
    crate::value::lemma_ram_ptr(u.phase(), 1);
    assert(p == u.reserve_ptr());
    u.lemma_alloc_cell(init, UNDEF);
    assert(spec_ofs(p) != 0);
    assert(!same_cell(p, s));
    assert(w.phase() == u.phase());
    assert(w.memory() == m);
    assert forall|b: Any| readable(b) && u.in_heap(b) && !same_cell(b, s) && !same_cell(b, m)
        implies #[trigger] w.cell(b) == u.cell(b) by {
        u.lemma_alloc_cell(init, b);
    }
    // the memory descriptor: only its top moved
    let newtop = crate::value::spec_ram_ptr(u.phase(), (spec_ofs(p) + 1) as usize);
    crate::value::lemma_ram_ptr(u.phase(), (spec_ofs(p) + 1) as usize);
    let qm = Quad { t: newtop, ..u.mem_cell() };
    let v1 = u.set_memory(qm);
    let v2 = v1.set_cell(p, init);
    let q2 = Quad { t: spec_fix(u.quota(s) - 1), ..v2.cell(s) };
    assert(w == v2.set_cell(s, q2));
    u.lemma_set_cell_same(m, qm, m);
    v1.lemma_set_cell_other(p, init, m);
    v2.lemma_set_cell_other(s, q2, m);
    assert(w.mem_cell() == qm);
    assert(w.ram_top() == newtop);
    assert(w.ram_next() == u.ram_next());
    // the free list stays empty
    let nx = u.ram_next();
    assert(!w.free_path()) by {
        if w.typeq(FREE_T, nx) {
            assert(crate::value::spec_is_ptr(nx));
            lemma_cell_fields_valid(u, m);
            assert(readable(nx));
            if same_cell(nx, p) {
                assert(w.cell(nx) == w.cell(p));
            } else if same_cell(nx, s) {
                assert(w.cell(nx) == w.cell(s));
                v2.lemma_set_cell_same(s, q2, s);
            } else if same_cell(nx, m) {
                assert(w.cell(nx) == w.cell(m));
            } else {
                u.lemma_alloc_cell(init, nx);
            }
        }
    }
    // the way to the sponsor is kept
    let dq = u.ddeque();
    assert(w.ddeque() == dq);
    assert(w.cell(dq).y == u.cell(dq).y) by {
        if same_cell(dq, s) {
            v2.lemma_set_cell_same(s, q2, dq);
            v1.lemma_set_cell_other(p, init, dq);
            u.lemma_set_cell_other(m, qm, dq);
        } else {
            u.lemma_alloc_cell(init, dq);
        }
    }
    assert(w.kp() == u.kp());
    let kp = u.kp();
    if spec_is_ram(kp) {
        assert(w.cell(kp).y == u.cell(kp).y) by {
            lemma_cell_fields_valid(u, dq);
            if same_cell(kp, s) {
                v2.lemma_set_cell_same(s, q2, kp);
                v1.lemma_set_cell_other(p, init, kp);
                if same_cell(kp, m) {
                    u.lemma_set_cell_same(m, qm, kp);
                } else {
                    u.lemma_set_cell_other(m, qm, kp);
                }
            } else if same_cell(kp, m) {
                v2.lemma_set_cell_other(s, q2, kp);
                v1.lemma_set_cell_other(p, init, kp);
                u.lemma_set_cell_same(m, qm, kp);
            } else {
                u.lemma_alloc_cell(init, kp);
            }
        }
    }
    assert(w.ep() == u.ep());
    let ep = u.ep();
    assert(w.cell(ep).t == u.cell(ep).t) by {
        if spec_is_ram(ep) {
            lemma_cell_fields_valid(u, kp);
            u.lemma_alloc_cell(init, ep);
        }
    }
    assert(w.cur_sponsor() == s);
    // the dictionary's walk is kept
    lemma_dict_path_valid(u, d, f);
    let path = u.dict_path(d, f);
    assert forall|i: int| 0 <= i < path.len() && crate::value::spec_is_ptr(#[trigger] path[i])
        implies w.cell(path[i]) == u.cell(path[i]) by {
        u.lemma_alloc_cell(init, path[i]);
    }
    lemma_dict_frame(u, w, d, f);
}

/// Deleting from a dictionary whose chain ends within `f` entries, with
/// allocation from the top of the heap sparing its walk: the result binds
/// what the old dictionary bound without the first binding of `key`.
#[verifier::spinoff_prover]
#[verifier::rlimit(40)]
pub proof fn lemma_dict_del_entries(u: CoreView, d: Any, key: Any, f: nat)
    requires
        u.wf(),
        valid(d),
        f > 0,
        u.top_alloc(),
        u.dict_spared(d, f),
        u.dict_ends(d, f),
        u.dict_del_step(d, key, f).0 is Ok,
    ensures
        ({
            let (r, w) = u.dict_del_step(d, key, f);
            let d2 = r->Ok_0;
            &&& w.wf()
            &&& valid(d2)
            &&& w.top_alloc()
            &&& w.cur_sponsor() == u.cur_sponsor()
            &&& w.memory() == u.memory()
            &&& spec_ofs(w.ram_top()) >= spec_ofs(u.ram_top())
            &&& w.dict_spared(d2, f)
            &&& w.dict_ends(d2, f)
            &&& w.dict_entries(d2, f) == remove_first(u.dict_entries(d, f), key)
            &&& forall|b: Any| readable(b) && u.in_heap(b) && !same_cell(b, u.cur_sponsor()) && !same_cell(b, u.memory())
                ==> #[trigger] w.cell(b) == u.cell(b)
        }),
    decreases f,
{
    let s = u.cur_sponsor();
    let m = u.memory();
    if u.typeq(DICT_T, d) {
        lemma_cell_fields_valid(u, d);
        let e = u.cell(d);
        let path = u.dict_path(d, f);
        let rest = u.dict_path(e.z, (f - 1) as nat);
        assert(path == seq![d] + rest);
        assert(u.dict_spared(e.z, (f - 1) as nat)) by {
            assert forall|i: int| 0 <= i < rest.len() && spec_is_ram(#[trigger] rest[i]) implies u.in_heap(rest[i])
                && !same_cell(rest[i], s) && !same_cell(rest[i], m) by {
                assert(rest[i] == path[i + 1]);
            }
        }
        let ents = u.dict_entries(d, f);
        assert(ents == seq![(e.x, e.y)] + u.dict_entries(e.z, (f - 1) as nat));
        assert(ents.drop_first() =~= u.dict_entries(e.z, (f - 1) as nat));
        if e.x == key {
            lemma_dict_ends_stable(u, e.z, (f - 1) as nat, f);
            assert(u.dict_spared(e.z, f));
        } else {
            assert(u.dict_ends(e.z, (f - 1) as nat));
            assert(f > 1);
            lemma_dict_del_entries(u, e.z, key, (f - 1) as nat);
            let (r1, v1) = u.dict_del_step(e.z, key, (f - 1) as nat);
            let d1 = r1->Ok_0;
            let init = mk(DICT_T, e.x, e.y, d1);
            lemma_top_alloc(v1, init, d1, (f - 1) as nat);
            let w = v1.alloc_state(init);
            let c = v1.ram_top();
            assert(v1.alloc_outcome(init) == Ok::<Any, Error>(c));
            assert(w.typeq(DICT_T, c));
            assert(w.dict_entries(c, f) == seq![(e.x, e.y)] + w.dict_entries(d1, (f - 1) as nat));
            assert(remove_first(ents, key) == seq![ents[0]] + remove_first(ents.drop_first(), key));
            assert(w.dict_path(c, f) == seq![c] + w.dict_path(d1, (f - 1) as nat));
            let wp = w.dict_path(c, f);
            let wr = w.dict_path(d1, (f - 1) as nat);
            assert forall|i: int| 0 <= i < wp.len() && spec_is_ram(#[trigger] wp[i]) implies w.in_heap(wp[i])
                && !same_cell(wp[i], w.cur_sponsor()) && !same_cell(wp[i], w.memory()) by {
                if i > 0 {
                    assert(wp[i] == wr[i - 1]);
                }
            }
            assert forall|b: Any| readable(b) && u.in_heap(b) && !same_cell(b, s) && !same_cell(b, m)
                implies #[trigger] w.cell(b) == u.cell(b) by {
                assert(v1.cell(b) == u.cell(b));
                assert(v1.in_heap(b));
                assert(w.cell(b) == v1.cell(b));
            }
        }
    }
}

/// Deleting a key from a dictionary removes its first binding and keeps the
/// rest: the new dictionary's bindings are the old ones without the first
/// binding of `key`, so every other key is bound as before. This holds when
/// the dictionary has fewer than `WALK_MAX` entries and new cells come from
/// the top of the heap, above the cells the old dictionary and the current
/// sponsor use.
pub proof fn law_dict_del_unbinds(v: CoreView, dict: Any, key: Any, other: Any)
    requires
        v.wf(),
        valid(dict),
        v.top_alloc(),
        v.dict_spared(dict, WALK_MAX as nat),
        v.dict_ends(dict, WALK_MAX as nat),
        v.dict_del_step(dict, key, WALK_MAX as nat).0 is Ok,
        other != key,
    ensures
        ({
            let (r, w) = v.dict_del_step(dict, key, WALK_MAX as nat);
            let d = r->Ok_0;
            &&& w.dict_entries(d, WALK_MAX as nat) == remove_first(v.dict_entries(dict, WALK_MAX as nat), key)
            &&& w.dict_get(d, other) == v.dict_get(dict, other)
        }),
{
    lemma_dict_del_entries(v, dict, key, WALK_MAX as nat);
    let (r, w) = v.dict_del_step(dict, key, WALK_MAX as nat);
    let d = r->Ok_0;
    lemma_lookup_entries(w, d, other, WALK_MAX as nat);
    lemma_lookup_entries(v, dict, other, WALK_MAX as nat);
    lemma_remove_first_other(v.dict_entries(dict, WALK_MAX as nat), key, other);
}

} // verus!
