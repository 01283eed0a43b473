//! The stop-the-world copying collector: RAM is two half-spaces (banks);
//! a collection copies the reserved cells, the root and everything reachable
//! from them into the other bank, leaving forwarding cells behind.
use vstd::prelude::*;
use crate::value::{
    Any, Raw, Error, spec_is_ram, spec_is_cap, spec_ofs, spec_bank, spec_ram_ptr, is_bank, bank,
    is_cap, ofs, ram_ptr, lemma_ram_ptr, lemma_raw_edits, lemma_opq_fields, set_opq, OPQ_RAW, BNK_0, BNK_1,
    UNDEF, NIL, ZERO, ACTOR_T, GC_FWD_T, E_ASSERT, E_NO_MEM,
};
use crate::quad::{Quad, mk, valid, valid_quad, is_valid, is_valid_quad, QUAD_RAM_MAX};
use crate::machine::and_then;
use crate::cpu::{Core, CoreView, RAM_BASE_OFS, valid_cell, writable, lemma_valid_quad_at};

verus! {

/// The other half-space.
pub open spec fn other_bank(b: Raw) -> Raw {
    if b == BNK_0 {
        BNK_1
    } else {
        BNK_0
    }
}

impl CoreView {
    /// Marking a value: a reference into the old half-space is replaced by
    /// its copy in the current one (copying the cell the first time and
    /// leaving a forwarding cell behind); any other value stays as it is.
    #[verifier::opaque]
    pub open spec fn gc_mark_step(self, val: Any) -> (Result<Any, Error>, CoreView) {
        let quad = self.cell(val);
        let p = self.reserve_ptr();
        let v1 = self.reserve_state(quad);
        let dup = if spec_is_cap(val) { set_opq(p) } else { p };
        if !(spec_is_ram(val) && spec_bank(val) != Some(self.phase())) {
            (Ok(val), self)
        } else if quad.t == GC_FWD_T {
            (Ok(quad.z), self)
        } else if !valid_quad(quad) {
            (Err(E_ASSERT), self)
        } else if !self.reserve_ok() {
            (Err(self.reserve_err()), self)
        } else if spec_is_cap(val) && v1.cell(p).t != ACTOR_T {
            (Err(E_ASSERT), v1)
        } else {
            (Ok(dup), v1.set_cell(val, mk(GC_FWD_T, UNDEF, UNDEF, dup)))
        }
    }

    /// Marking a value, as an error when that switched the half-spaces away
    /// from `phase`.
    pub open spec fn gc_mark_within_step(self, val: Any, phase: Raw) -> (Result<Any, Error>, CoreView) {
        let (r, v1) = self.gc_mark_step(val);
        match r {
            Ok(a) => if v1.phase() != phase {
                (Err(E_ASSERT), v1)
            } else {
                (Ok(a), v1)
            },
            Err(e) => (Err(e), v1),
        }
    }

    /// Scanning a cell of the current half-space: each field is marked and
    /// the cell rewritten with the results.
    pub open spec fn gc_scan_step(self, ptr: Any) -> (Result<(), Error>, CoreView) {
        let quad = self.cell(ptr);
        let ph = self.phase();
        if !(valid(ptr) && spec_is_ram(ptr) && spec_ofs(ptr) != 0) || spec_bank(ptr) != Some(ph) {
            (Err(E_ASSERT), self)
        } else {
            and_then(self.gc_mark_within_step(quad.t, ph), |t: Any, v1: CoreView|
                and_then(v1.gc_mark_within_step(quad.x, ph), |x: Any, v2: CoreView|
                    and_then(v2.gc_mark_within_step(quad.y, ph), |y: Any, v3: CoreView|
                        and_then(v3.gc_mark_within_step(quad.z, ph), |z: Any, v4: CoreView|
                            (Ok(()), v4.set_cell(ptr, mk(t, x, y, z)))))))
        }
    }

    /// Marking the reserved cells from `scan` on (up to `RAM_BASE_OFS`), an
    /// actor cell as a capability; the half-space must stay `bank`.
    pub open spec fn gc_reserved_loop(self, scan: Any, bank: Raw) -> (Result<(), Error>, CoreView)
        decreases RAM_BASE_OFS - spec_ofs(scan),
    {
        if spec_ofs(scan) < RAM_BASE_OFS {
            let mark = if self.cell(scan).t == ACTOR_T { set_opq(scan) } else { scan };
            let (r, v1) = self.gc_mark_step(mark);
            match r {
                Err(e) => (Err(e), v1),
                Ok(_) => if v1.phase() != bank {
                    (Err(E_ASSERT), v1)
                } else {
                    v1.gc_reserved_loop((scan + 1) as Any, bank)
                },
            }
        } else {
            (Ok(()), self)
        }
    }

    /// Scanning the cells of the current half-space from `scan` up to the top
    /// of the heap (which grows as cells are copied), at most `fuel` of them.
    pub open spec fn gc_scan_loop(self, scan: Any, bank: Raw, fuel: nat) -> (Result<(), Error>, CoreView)
        decreases fuel,
    {
        if scan != self.ram_top() {
            if fuel == 0 {
                (Err(E_NO_MEM), self)
            } else {
                let (r, v1) = self.gc_scan_step(scan);
                match r {
                    Err(e) => (Err(e), v1),
                    Ok(_) => if v1.phase() != bank || scan >= 0xFFFF_FFFF {
                        (Err(E_ASSERT), v1)
                    } else {
                        v1.gc_scan_loop((scan + 1) as Any, bank, (fuel - 1) as nat)
                    },
                }
            }
        } else {
            (Ok(()), self)
        }
    }

    /// A collection: switch half-spaces, mark the reserved cells and the
    /// root, then scan the copied cells until every reachable cell is copied.
    pub open spec fn gc_step(self) -> (Result<(), Error>, CoreView) {
        let bank = other_bank(self.phase());
        let ddeque = self.ddeque();
        let root = self.ram_root();
        let v1 = self.set_memory(Quad { t: UNDEF, ..self.mem_cell() });
        let v2 = v1.set_cell(spec_ram_ptr(bank, 0), mk(spec_ram_ptr(bank, 1), NIL, ZERO, root));
        if v2.phase() != bank {
            (Err(E_ASSERT), v2)
        } else {
            let (r, v3) = v2.gc_reserved_loop(ddeque, bank);
            match r {
                Err(e) => (Err(e), v3),
                Ok(_) => {
                    let (r2, v4) = v3.gc_mark_step(root);
                    match r2 {
                        Err(e) => (Err(e), v4),
                        Ok(root2) => if v4.phase() != bank {
                            (Err(E_ASSERT), v4)
                        } else {
                            let v5 = v4.set_memory(Quad { z: root2, ..v4.mem_cell() });
                            v5.gc_scan_loop(v5.ddeque(), bank, QUAD_RAM_MAX as nat)
                        },
                    }
                },
            }
        }
    }
}

impl Core {
    /// Copy a cell of the old half-space into the current one (once: the
    /// old cell becomes a forwarding cell), returning the new reference.
    /// Values that are not references into the old half-space are returned
    /// unchanged.
    pub(crate) fn gc_mark(&mut self, val: Any) -> (r: Result<Any, Error>)
        requires
            old(self)@.wf(),
            valid(val),
        ensures
            final(self)@.wf(),
            r == old(self)@.gc_mark_step(val).0,
            final(self)@ == old(self)@.gc_mark_step(val).1,
            r matches Ok(v) ==> valid(v),
    {
        proof {
            reveal(CoreView::gc_mark_step);
        }
        if let Some(b) = bank(val) {
            if b != self.gc_phase() {
                let quad = self.gc_load(val);
                if quad.t == GC_FWD_T {
                    return Ok(quad.z);
                }
                if !is_valid_quad(quad) {
                    return Err(E_ASSERT);
                }
                let mut dup = self.reserve(&quad)?;
                if is_cap(val) {
                    if self.mem(dup).t != ACTOR_T {
                        return Err(E_ASSERT);
                    }
                    dup = self.ptr_to_cap(dup);
                }
                let fwd = Quad::gc_fwd_t(dup);
                proof {
                    lemma_valid_quad_at(val, fwd);
                }
                self.gc_store(val, fwd);
                return Ok(dup);
            }
        }
        Ok(val)
    }

    /// Mark a value, failing with `E_ASSERT` when that switched the
    /// half-spaces (it copied the old half-space's memory descriptor).
    fn gc_mark_within(&mut self, val: Any, phase: Raw) -> (r: Result<Any, Error>)
        requires
            old(self)@.wf(),
            valid(val),
        ensures
            final(self)@.wf(),
            r == old(self)@.gc_mark_within_step(val, phase).0,
            final(self)@ == old(self)@.gc_mark_within_step(val, phase).1,
            r matches Ok(v) ==> valid(v),
    {
        let a = self.gc_mark(val)?;
        if self.gc_phase() != phase {
            return Err(E_ASSERT);
        }
        Ok(a)
    }

    /// Replace each field of a cell of the current half-space by its copy.
    pub(crate) fn gc_scan(&mut self, ptr: Any) -> (r: Result<(), Error>)
        requires
            old(self)@.wf(),
        ensures
            final(self)@.wf(),
            r == old(self)@.gc_scan_step(ptr).0,
            final(self)@ == old(self)@.gc_scan_step(ptr).1,
    {
        if !(is_valid(ptr) && crate::value::is_ram(ptr) && ofs(ptr) != 0) {
            return Err(E_ASSERT);
        }
        if bank(ptr) != Some(self.gc_phase()) {
            return Err(E_ASSERT);
        }
        let phase = self.gc_phase();
        let quad = self.gc_load(ptr);
        let t = self.gc_mark_within(quad.t, phase)?;
        let x = self.gc_mark_within(quad.x, phase)?;
        let y = self.gc_mark_within(quad.y, phase)?;
        let z = self.gc_mark_within(quad.z, phase)?;
        let quad = Quad::new(t, x, y, z);
        proof {
            lemma_valid_quad_at(ptr, quad);
        }
        self.gc_store(ptr, quad);
        Ok(())
    }

    /// Mark the reserved cells from `start` on (see `gc_reserved_loop`).
    fn gc_mark_reserved(&mut self, start: Any, bank: Raw) -> (r: Result<(), Error>)
        requires
            old(self)@.wf(),
            valid(start),
            spec_is_ram(start),
            !spec_is_cap(start),
            old(self)@.phase() == bank,
            is_bank(bank),
        ensures
            final(self)@.wf(),
            r == old(self)@.gc_reserved_loop(start, bank).0,
            final(self)@ == old(self)@.gc_reserved_loop(start, bank).1,
    {
        let mut scan = start;
        while ofs(scan) < RAM_BASE_OFS
            invariant
                self@.wf(),
                valid(scan),
                spec_is_ram(scan),
                !spec_is_cap(scan),
                self@.phase() == bank,
                is_bank(bank),
                old(self)@.gc_reserved_loop(start, bank) == self@.gc_reserved_loop(scan, bank),
            decreases RAM_BASE_OFS - spec_ofs(scan),
        {
            let raw = scan;
            let ghost cur = self@;
            let mut mark = scan;
            if self.gc_load(scan).t == ACTOR_T {
                proof {
                    lemma_raw_edits(raw);
                    lemma_opq_fields(raw);
                }
                mark = raw | OPQ_RAW;
            }
            assert(mark == (if cur.cell(raw).t == ACTOR_T { set_opq(raw) } else { raw }));
            match self.gc_mark(mark) {
                Ok(_) => {},
                Err(e) => {
                    assert(cur.gc_reserved_loop(raw, bank) == (Err::<(), Error>(e), self@));
                    return Err(e);
                },
            }
            if self.gc_phase() != bank {
                assert(cur.gc_reserved_loop(raw, bank) == (Err::<(), Error>(E_ASSERT), self@));
                return Err(E_ASSERT);
            }
            proof {
                assert(raw + 1 == spec_ram_ptr(if crate::value::bnk_bit(raw) { BNK_1 } else { BNK_0 }, (spec_ofs(raw) + 1) as usize));
                lemma_ram_ptr(if crate::value::bnk_bit(raw) { BNK_1 } else { BNK_0 }, (spec_ofs(raw) + 1) as usize);
                assert(cur.gc_reserved_loop(raw, bank) == self@.gc_reserved_loop((raw + 1) as Any, bank));
            }
            scan = raw + 1;
        }
        Ok(())
    }

    /// Scan the cells of the current half-space from the queue cell up to
    /// the top of the heap (see `gc_scan_loop`).
    fn gc_scan_heap(&mut self, bank: Raw) -> (r: Result<(), Error>)
        requires
            old(self)@.wf(),
            old(self)@.phase() == bank,
            is_bank(bank),
        ensures
            final(self)@.wf(),
            r == old(self)@.gc_scan_loop(old(self)@.ddeque(), bank, QUAD_RAM_MAX as nat).0,
            final(self)@ == old(self)@.gc_scan_loop(old(self)@.ddeque(), bank, QUAD_RAM_MAX as nat).1,
            r is Ok ==> final(self)@.phase() == bank,
    {
        let mut scan = self.ddeque();
        let mut fuel: usize = QUAD_RAM_MAX;
        while scan != self.ram_top()
            invariant
                self@.wf(),
                self@.phase() == bank,
                is_bank(bank),
                old(self)@.gc_scan_loop(old(self)@.ddeque(), bank, QUAD_RAM_MAX as nat) == self@.gc_scan_loop(scan, bank, fuel as nat),
            decreases fuel,
        {
            if fuel == 0 {
                return Err(E_NO_MEM);
            }
            self.gc_scan(scan)?;
            if self.gc_phase() != bank {
                return Err(E_ASSERT);
            }
            if scan >= 0xFFFF_FFFF {
                return Err(E_ASSERT);
            }
            scan = scan + 1;
            fuel -= 1;
        }
        Ok(())
    }

    /// Collect garbage: switch half-spaces and copy the reserved cells, the
    /// root and all cells reachable from them into the new half-space.
    /// Fails with `E_NO_MEM` when the new half-space runs out of cells, and
    /// with `E_ASSERT` when the old half-space's memory descriptor is itself
    /// reachable (copying it would switch the half-spaces back).
    pub fn gc_stop_the_world(&mut self) -> (r: Result<(), Error>)
        requires
            old(self)@.wf(),
        ensures
            final(self)@.wf(),
            r == old(self)@.gc_step().0,
            final(self)@ == old(self)@.gc_step().1,
            r is Ok ==> final(self)@.phase() == other_bank(old(self)@.phase()),
    {
        let ddeque = self.ddeque();
        let root = self.ram_root();
        let bank = if self.gc_phase() == BNK_0 {
            BNK_1
        } else {
            BNK_0
        };
        let m = self.memory();
        let mut q = self.ram(m);
        q.t = UNDEF;
        self.set_memory_cell(q);
        proof {
            lemma_ram_ptr(bank, 0);
            lemma_ram_ptr(bank, 1);
        }
        let new_mem = ram_ptr(bank, 0);
        let top = ram_ptr(bank, ofs(ddeque));
        self.gc_store(new_mem, Quad::memory_t(top, NIL, ZERO, root));
        if self.gc_phase() != bank {
            return Err(E_ASSERT);
        }
        self.gc_mark_reserved(ddeque, bank)?;
        let root = self.gc_mark(root)?;
        if self.gc_phase() != bank {
            return Err(E_ASSERT);
        }
        self.set_ram_root(root);
        self.gc_scan_heap(bank)
    }
}

} // verus!
