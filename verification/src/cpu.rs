//! The core's memory: ROM, two RAM banks (half-spaces for the copying
//! collector), blob RAM, and the cell allocator.
//!
//! Where a corrupted machine state (not an argument) would make a memory
//! operation fail, the operation returns an error instead of stopping the
//! machine; the contracts say exactly when.
use vstd::prelude::*;
use crate::value::{
    Any, Raw, Error, spec_is_fix, spec_is_cap, spec_is_ptr, spec_is_rom, spec_is_ram, spec_ofs,
    spec_bank, spec_fix_num, spec_fix, spec_ram_ptr, spec_rom_ptr, mut_bit, bnk_bit, opq_bit,
    clear_opq, set_opq, clear_bnk, fix_val, is_fixnum_range, is_bank, is_fix, is_cap, is_ptr,
    is_rom, is_ram, ofs, bank, fix_num, fix, ram_ptr, rom_ptr, lemma_raw_bits, lemma_raw_edits,
    lemma_set_bank, lemma_ram_ptr, lemma_opq_fields, lemma_rom_ptr, lemma_fix_roundtrip, MUT_RAW, OPQ_RAW, BNK_RAW, MSK_RAW,
    BNK_0, BNK_1, UNDEF, NIL, LITERAL_T, TYPE_T, FIXNUM_T, ACTOR_T, FREE_T, GC_FWD_T, INSTR_T, PAIR_T, VM_IF, VM_END,
    E_NO_MEM, E_MEM_LIM, E_NOT_RAM, E_NOT_PTR, E_FAIL,
};
use crate::quad::{Quad, mk, valid, valid_quad, QUAD_ROM_MAX, QUAD_RAM_MAX};

verus! {

/// Number of octets of blob RAM.
pub const BLOB_RAM_MAX: usize = 256;

/// The memory descriptor cell (offset 0 of the current RAM bank).
pub const MEMORY: Any = 0x4000_0000;
/// The event/continuation queue cell (offset 1 of the current RAM bank).
pub const DDEQUE: Any = 0x4000_0001;
/// RAM offsets below this value are reserved.
pub const RAM_BASE_OFS: usize = 6;
/// ROM offsets below this value are reserved.
pub const ROM_BASE_OFS: usize = 16;

/// A value that may stand in the `t` field of a cell: a valid value, or the
/// top-of-heap pointer one past the last RAM cell.
pub open spec fn valid_top(a: Any) -> bool {
    valid(a) || (spec_is_ram(a) && !opq_bit(a) && spec_ofs(a) == QUAD_RAM_MAX)
}

/// A cell whose fields address only existing memory.
pub open spec fn valid_cell(q: Quad) -> bool {
    valid_top(q.t) && valid(q.x) && valid(q.y) && valid(q.z)
}

/// What may be stored in the cell `a` designates: any valid quad, and in a
/// memory descriptor (offset 0 of a RAM bank) a top-of-heap pointer in `t`.
pub open spec fn valid_at(a: Any, q: Quad) -> bool {
    if mut_bit(a) && spec_ofs(a) == 0 {
        valid_cell(q)
    } else {
        valid_quad(q)
    }
}

/// A valid quad may be stored anywhere.
pub proof fn lemma_valid_quad_at(a: Any, q: Quad)
    requires
        valid_quad(q),
    ensures
        valid_at(a, q),
        valid_cell(q),
{
}

/// A valid value may stand in a `t` field.
pub proof fn lemma_valid_top_of_valid(a: Any)
    requires
        valid(a),
    ensures
        valid_top(a),
{
}

/// The reserved ROM cells: literal values (`UNDEF`, `NIL`, `FALSE`, `TRUE`,
/// `UNIT`), the empty deque, and the type markers.
pub open spec fn rom_reserved(rom: Seq<Quad>) -> bool {
    &&& forall|i: int| 0 <= i < 5 ==> #[trigger] rom[i] == mk(LITERAL_T, UNDEF, UNDEF, UNDEF)
    &&& rom[5] == mk(PAIR_T, NIL, NIL, UNDEF)
    &&& forall|i: int| 6 <= i < 16 ==> #[trigger] rom[i] == mk(TYPE_T, UNDEF, UNDEF, UNDEF)
}

/// The mathematical contents of a core.
pub struct CoreView {
    pub rom: Seq<Quad>,
    pub ram0: Seq<Quad>,
    pub ram1: Seq<Quad>,
    pub blob: Seq<u8>,
    pub rom_top: Any,
}

impl CoreView {
    pub open spec fn wf(self) -> bool {
        &&& self.rom.len() == QUAD_ROM_MAX
        &&& self.ram0.len() == QUAD_RAM_MAX
        &&& self.ram1.len() == QUAD_RAM_MAX
        &&& self.blob.len() == BLOB_RAM_MAX
        &&& forall|i: int| 0 <= i < QUAD_ROM_MAX ==> valid_quad(#[trigger] self.rom[i])
        &&& forall|i: int| 1 <= i < QUAD_RAM_MAX ==> valid_quad(#[trigger] self.ram0[i])
        &&& forall|i: int| 1 <= i < QUAD_RAM_MAX ==> valid_quad(#[trigger] self.ram1[i])
        &&& valid_cell(self.ram0[0])
        &&& valid_cell(self.ram1[0])
        &&& self.rom_top <= QUAD_ROM_MAX
        &&& rom_reserved(self.rom)
    }

    /// The cell a reference designates (the opaque bit is ignored).
    pub open spec fn cell(self, a: Any) -> Quad {
        if mut_bit(a) {
            if bnk_bit(a) {
                self.ram1[spec_ofs(a) as int]
            } else {
                self.ram0[spec_ofs(a) as int]
            }
        } else {
            self.rom[spec_ofs(a) as int]
        }
    }

    /// The contents after writing `q` into the RAM cell `a` designates.
    pub open spec fn set_cell(self, a: Any, q: Quad) -> CoreView {
        if bnk_bit(a) {
            CoreView { ram1: self.ram1.update(spec_ofs(a) as int, q), ..self }
        } else {
            CoreView { ram0: self.ram0.update(spec_ofs(a) as int, q), ..self }
        }
    }

    /// The collector's current half-space.
    pub open spec fn phase(self) -> Raw {
        if self.ram0[0].t == UNDEF {
            BNK_1
        } else {
            BNK_0
        }
    }

    pub open spec fn memory(self) -> Any {
        spec_ram_ptr(self.phase(), 0)
    }

    pub open spec fn ddeque(self) -> Any {
        spec_ram_ptr(self.phase(), 1)
    }

    pub open spec fn ram_top(self) -> Any {
        self.cell(self.memory()).t
    }

    pub open spec fn ram_next(self) -> Any {
        self.cell(self.memory()).x
    }

    pub open spec fn ram_free(self) -> Any {
        self.cell(self.memory()).y
    }

    pub open spec fn ram_root(self) -> Any {
        self.cell(self.memory()).z
    }

    pub open spec fn e_first(self) -> Any {
        self.cell(self.ddeque()).t
    }

    pub open spec fn e_last(self) -> Any {
        self.cell(self.ddeque()).x
    }

    pub open spec fn k_first(self) -> Any {
        self.cell(self.ddeque()).y
    }

    pub open spec fn k_last(self) -> Any {
        self.cell(self.ddeque()).z
    }

    /// Is `val` of type `typ`?
    pub open spec fn typeq(self, typ: Any, val: Any) -> bool {
        if typ == FIXNUM_T {
            spec_is_fix(val)
        } else if typ == ACTOR_T {
            spec_is_cap(val) && self.cell(val).t == ACTOR_T
        } else if spec_is_ptr(val) {
            self.cell(val).t == typ
        } else {
            false
        }
    }

    /// The continuation at the head of the continuation queue, or `UNDEF`.
    pub open spec fn kp(self) -> Any {
        if spec_is_ram(self.k_first()) {
            self.k_first()
        } else {
            UNDEF
        }
    }

    pub open spec fn ip(self) -> Any {
        if spec_is_ram(self.kp()) {
            self.cell(self.kp()).t
        } else {
            UNDEF
        }
    }

    pub open spec fn sp(self) -> Any {
        if spec_is_ram(self.kp()) {
            self.cell(self.kp()).x
        } else {
            UNDEF
        }
    }

    pub open spec fn ep(self) -> Any {
        if spec_is_ram(self.kp()) {
            self.cell(self.kp()).y
        } else {
            UNDEF
        }
    }

    /// Is `val` a RAM reference below the top of the heap?
    pub open spec fn in_heap(self, val: Any) -> bool {
        spec_is_ram(val) && spec_ofs(val) < spec_ofs(self.ram_top())
    }

    /// The contents after replacing the memory descriptor.
    pub open spec fn set_memory(self, q: Quad) -> CoreView {
        self.set_cell(self.memory(), q)
    }
}

/// A reference that can be read as a cell.
pub open spec fn readable(a: Any) -> bool {
    !spec_is_fix(a) && valid(a)
}

/// A RAM pointer that can be written as a cell.
pub open spec fn writable(a: Any) -> bool {
    spec_is_ram(a) && !spec_is_cap(a) && valid(a)
}

/// The virtual CPU core.
pub struct Core {
    pub(crate) quad_rom: Vec<Quad>,
    pub(crate) quad_ram0: Vec<Quad>,
    pub(crate) quad_ram1: Vec<Quad>,
    pub(crate) blob_ram: Vec<u8>,
    pub(crate) rom_top: Any,
}

impl View for Core {
    type V = CoreView;

    closed spec fn view(&self) -> CoreView {
        CoreView {
            rom: self.quad_rom@,
            ram0: self.quad_ram0@,
            ram1: self.quad_ram1@,
            blob: self.blob_ram@,
            rom_top: self.rom_top,
        }
    }
}

impl Core {
    /// Assemble a core from its parts.
    pub(crate) fn from_parts(
        quad_rom: Vec<Quad>,
        quad_ram0: Vec<Quad>,
        quad_ram1: Vec<Quad>,
        blob_ram: Vec<u8>,
        rom_top: Any,
    ) -> (core: Core)
        ensures
            core@ == (CoreView {
                rom: quad_rom@,
                ram0: quad_ram0@,
                ram1: quad_ram1@,
                blob: blob_ram@,
                rom_top,
            }),
    {
        Core { quad_rom, quad_ram0, quad_ram1, blob_ram, rom_top }
    }
}

/// Is the value safe to read as a cell? (exec form of `readable`)
pub fn is_readable(a: Any) -> (r: bool)
    ensures
        r == readable(a),
{
    proof {
        lemma_raw_bits(a);
    }
    if is_fix(a) {
        false
    } else if (a & MUT_RAW) != 0 {
        ofs(a) < QUAD_RAM_MAX
    } else {
        ofs(a) < QUAD_ROM_MAX
    }
}

/// Is the value a RAM pointer safe to write? (exec form of `writable`)
pub fn is_writable(a: Any) -> (r: bool)
    ensures
        r == writable(a),
{
    is_ram(a) && !is_cap(a) && ofs(a) < QUAD_RAM_MAX
}

impl Core {
    /// Read the cell a reference designates.
    pub(crate) fn load(&self, a: Any) -> (q: Quad)
        requires
            self@.wf(),
            readable(a),
        ensures
            q == self@.cell(a),
            valid_cell(q),
            valid_at(a, q),
    {
        proof {
            lemma_raw_bits(a);
        }
        let o = ofs(a);
        if (a & MUT_RAW) != 0 {
            if (a & BNK_RAW) != 0 {
                self.quad_ram1[o]
            } else {
                self.quad_ram0[o]
            }
        } else {
            self.quad_rom[o]
        }
    }

    /// Write a cell of RAM.
    pub(crate) fn store(&mut self, a: Any, q: Quad)
        requires
            old(self)@.wf(),
            spec_is_ram(a),
            valid(a),
            valid_at(a, q),
        ensures
            final(self)@.wf(),
            final(self)@ == old(self)@.set_cell(a, q),
    {
        proof {
            lemma_raw_bits(a);
        }
        let o = (a & !MSK_RAW) as usize;
        if (a & BNK_RAW) != 0 {
            proof {
                let s2 = self.quad_ram1@.update(o as int, q);
                assert forall|i: int| 1 <= i < QUAD_RAM_MAX implies valid_quad(#[trigger] s2[i]) by {
                    if i != o {
                        assert(s2[i] == self.quad_ram1@[i]);
                    } else {
                        assert(s2[i] == q);
                    }
                }
                assert(valid_cell(s2[0]));
            }
            self.quad_ram1[o] = q;
        } else {
            proof {
                let s2 = self.quad_ram0@.update(o as int, q);
                assert forall|i: int| 1 <= i < QUAD_RAM_MAX implies valid_quad(#[trigger] s2[i]) by {
                    if i != o {
                        assert(s2[i] == self.quad_ram0@[i]);
                    } else {
                        assert(s2[i] == q);
                    }
                }
                assert(valid_cell(s2[0]));
            }
            self.quad_ram0[o] = q;
        }
    }

    /// Load a RAM cell directly, whatever the collector's phase.
    pub(crate) fn gc_load(&self, ptr: Any) -> (q: Quad)
        requires
            self@.wf(),
            spec_is_ram(ptr),
            valid(ptr),
        ensures
            q == self@.cell(ptr),
            valid_cell(q),
            valid_at(ptr, q),
    {
        self.load(ptr)
    }

    /// Store a RAM cell directly, whatever the collector's phase.
    pub(crate) fn gc_store(&mut self, ptr: Any, q: Quad)
        requires
            old(self)@.wf(),
            spec_is_ram(ptr),
            valid(ptr),
            valid_at(ptr, q),
        ensures
            final(self)@.wf(),
            final(self)@ == old(self)@.set_cell(ptr, q),
    {
        self.store(ptr, q);
    }

    /// The collector's current half-space (`BNK_0` or `BNK_1`).
    pub fn gc_phase(&self) -> (r: Raw)
        requires
            self@.wf(),
        ensures
            r == self@.phase(),
            is_bank(r),
    {
        proof {
            lemma_ram_ptr(BNK_0, 0);
        }
        let mem = ram_ptr(BNK_0, 0);
        if self.gc_load(mem).t == UNDEF {
            BNK_1
        } else {
            BNK_0
        }
    }

    /// Read any cell through a pointer.
    pub fn mem(&self, ptr: Any) -> (q: Quad)
        requires
            self@.wf(),
            spec_is_ptr(ptr),
            valid(ptr),
        ensures
            q == self@.cell(ptr),
            valid_cell(q),
            valid_at(ptr, q),
    {
        self.load(ptr)
    }

    /// Read a ROM cell.
    pub fn rom(&self, ptr: Any) -> (q: Quad)
        requires
            self@.wf(),
            spec_is_rom(ptr),
            valid(ptr),
        ensures
            q == self@.cell(ptr),
            valid_cell(q),
            valid_at(ptr, q),
    {
        self.load(ptr)
    }

    /// Read a RAM cell through a pointer.
    pub fn ram(&self, ptr: Any) -> (q: Quad)
        requires
            self@.wf(),
            writable(ptr),
        ensures
            q == self@.cell(ptr),
            valid_cell(q),
            valid_at(ptr, q),
    {
        self.load(ptr)
    }

    /// Replace a RAM cell through a pointer.
    pub fn ram_mut(&mut self, ptr: Any, quad: Quad)
        requires
            old(self)@.wf(),
            writable(ptr),
            valid_at(ptr, quad),
        ensures
            final(self)@.wf(),
            final(self)@ == old(self)@.set_cell(ptr, quad),
    {
        self.store(ptr, quad);
    }

    /// Convert a RAM reference to the collector's current half-space.
    pub(crate) fn ptr_to_mem(&self, ptr: Any) -> (r: Any)
        requires
            self@.wf(),
        ensures
            r == (if spec_is_ram(ptr) { (clear_bnk(ptr) + self@.phase()) as Any } else { ptr }),
    {
        if bank(ptr).is_none() {
            ptr
        } else {
            proof {
                lemma_raw_edits(ptr);
            }
            let raw = ptr & !BNK_RAW;
            let phase = self.gc_phase();
            proof {
                lemma_set_bank(raw, phase);
            }
            phase | raw
        }
    }

    /// The memory descriptor cell.
    pub fn memory(&self) -> (r: Any)
        requires
            self@.wf(),
        ensures
            r == self@.memory(),
            writable(r),
    {
        let r = self.ptr_to_mem(MEMORY);
        proof {
            lemma_ram_ptr(self@.phase(), 0);
            assert(clear_bnk(MEMORY) == MEMORY);
        }
        r
    }

    /// The event/continuation queue cell.
    pub fn ddeque(&self) -> (r: Any)
        requires
            self@.wf(),
        ensures
            r == self@.ddeque(),
            writable(r),
    {
        let r = self.ptr_to_mem(DDEQUE);
        proof {
            lemma_ram_ptr(self@.phase(), 1);
            assert(clear_bnk(DDEQUE) == DDEQUE);
        }
        r
    }

    /// Top of the ROM image (next free ROM cell).
    pub fn rom_top(&self) -> (r: Any)
        requires
            self@.wf(),
        ensures
            r == self@.rom_top,
    {
        self.rom_top
    }

    /// Top of the RAM heap (next never-used RAM cell).
    pub fn ram_top(&self) -> (r: Any)
        requires
            self@.wf(),
        ensures
            r == self@.ram_top(),
            valid_top(r),
    {
        self.ram(self.memory()).t
    }

    pub fn ram_next(&self) -> (r: Any)
        requires
            self@.wf(),
        ensures
            r == self@.ram_next(),
            valid(r),
    {
        self.ram(self.memory()).x
    }

    pub fn ram_free(&self) -> (r: Any)
        requires
            self@.wf(),
        ensures
            r == self@.ram_free(),
            valid(r),
    {
        self.ram(self.memory()).y
    }

    pub fn ram_root(&self) -> (r: Any)
        requires
            self@.wf(),
        ensures
            r == self@.ram_root(),
            valid(r),
    {
        self.ram(self.memory()).z
    }

    pub(crate) fn set_memory_cell(&mut self, q: Quad)
        requires
            old(self)@.wf(),
            valid_cell(q),
        ensures
            final(self)@.wf(),
            final(self)@ == old(self)@.set_memory(q),
            final(self)@.phase() == (if old(self)@.phase() == BNK_0 && q.t == UNDEF {
                BNK_1
            } else {
                old(self)@.phase()
            }),
    {
        proof {
            lemma_ram_ptr(self@.phase(), 0);
        }
        let m = self.memory();
        self.ram_mut(m, q);
    }

    pub(crate) fn set_ram_top(&mut self, ptr: Any)
        requires
            old(self)@.wf(),
            valid_top(ptr),
            ptr != UNDEF,
        ensures
            final(self)@.wf(),
            final(self)@ == old(self)@.set_memory(
                Quad { t: ptr, ..old(self)@.cell(old(self)@.memory()) },
            ),
            final(self)@.phase() == old(self)@.phase(),
    {
        let m = self.memory();
        let mut q = self.ram(m);
        q.t = ptr;
        self.set_memory_cell(q);
    }

    pub(crate) fn set_ram_next(&mut self, ptr: Any)
        requires
            old(self)@.wf(),
            valid(ptr),
        ensures
            final(self)@.wf(),
            final(self)@ == old(self)@.set_memory(
                Quad { x: ptr, ..old(self)@.cell(old(self)@.memory()) },
            ),
            final(self)@.phase() == old(self)@.phase(),
    {
        proof {
            lemma_ram_ptr(self@.phase(), 0);
        }
        let m = self.memory();
        let mut q = self.ram(m);
        q.x = ptr;
        self.set_memory_cell(q);
    }

    pub(crate) fn set_ram_free(&mut self, fix: Any)
        requires
            old(self)@.wf(),
            valid(fix),
        ensures
            final(self)@.wf(),
            final(self)@ == old(self)@.set_memory(
                Quad { y: fix, ..old(self)@.cell(old(self)@.memory()) },
            ),
            final(self)@.phase() == old(self)@.phase(),
    {
        proof {
            lemma_ram_ptr(self@.phase(), 0);
        }
        let m = self.memory();
        let mut q = self.ram(m);
        q.y = fix;
        self.set_memory_cell(q);
    }

    pub(crate) fn set_ram_root(&mut self, ptr: Any)
        requires
            old(self)@.wf(),
            valid(ptr),
        ensures
            final(self)@.wf(),
            final(self)@ == old(self)@.set_memory(
                Quad { z: ptr, ..old(self)@.cell(old(self)@.memory()) },
            ),
            final(self)@.phase() == old(self)@.phase(),
    {
        proof {
            lemma_ram_ptr(self@.phase(), 0);
        }
        let m = self.memory();
        let mut q = self.ram(m);
        q.z = ptr;
        self.set_memory_cell(q);
    }
}

} // verus!

verus! {

impl CoreView {
    pub open spec fn mem_cell(self) -> Quad {
        self.cell(self.memory())
    }

    /// Does the next allocation take a cell from the free list?
    pub open spec fn free_path(self) -> bool {
        self.typeq(FREE_T, self.ram_next())
    }

    /// Can a cell be reserved without running into a corrupted allocator state
    /// or the end of RAM?
    pub open spec fn reserve_ok(self) -> bool {
        if self.free_path() {
            &&& spec_is_fix(self.ram_free())
            &&& fix_val(self.ram_free()) > 0
            &&& spec_is_ram(self.ram_next())
        } else {
            &&& spec_ofs(self.ram_top()) < QUAD_RAM_MAX
            &&& writable(self.ram_top())
        }
    }

    /// The cell the next reservation takes.
    pub open spec fn reserve_ptr(self) -> Any {
        if self.free_path() {
            self.ram_next()
        } else {
            self.ram_top()
        }
    }

    /// The contents after reserving a cell initialized to `init`.
    pub open spec fn reserve_state(self, init: Quad) -> CoreView {
        let ptr = self.reserve_ptr();
        if self.free_path() {
            self.set_memory(
                Quad {
                    x: self.cell(ptr).z,
                    y: spec_fix(fix_val(self.ram_free()) - 1),
                    ..self.mem_cell()
                },
            ).set_cell(ptr, init)
        } else {
            self.set_memory(
                Quad { t: spec_ram_ptr(self.phase(), (spec_ofs(ptr) + 1) as usize), ..self.mem_cell() },
            ).set_cell(ptr, init)
        }
    }

    /// Reserving a cell (no sponsor is charged).
    pub open spec fn reserve_step(self, init: Quad) -> (Result<Any, Error>, CoreView) {
        if self.reserve_ok() {
            (Ok(self.reserve_ptr()), self.reserve_state(init))
        } else {
            (Err(self.reserve_err()), self)
        }
    }

    /// The error a failed reservation reports.
    pub open spec fn reserve_err(self) -> Error {
        if self.free_path() {
            if spec_is_fix(self.ram_free()) && fix_val(self.ram_free()) > 0 {
                E_NOT_RAM
            } else {
                E_FAIL
            }
        } else if spec_ofs(self.ram_top()) >= QUAD_RAM_MAX {
            E_NO_MEM
        } else {
            E_NOT_RAM
        }
    }

    /// A cell whose rewriting leaves the memory descriptors alone: not at
    /// offset 0, or bank 1's cell 0 while the machine runs in bank 0 (bank
    /// 0's cell 0 decides the phase, and the current bank's is in use).
    pub open spec fn spare_cell(self, ptr: Any) -> bool {
        spec_ofs(ptr) != 0 || (bnk_bit(ptr) && self.phase() == BNK_0)
    }

    /// The contents after freeing cell `ptr`.
    pub open spec fn free_state(self, ptr: Any) -> CoreView {
        let v = self.set_cell(ptr, mk(FREE_T, UNDEF, UNDEF, self.ram_next()));
        v.set_memory(Quad { x: ptr, y: spec_fix(fix_val(self.ram_free()) + 1), ..self.mem_cell() })
    }

    /// The sponsor of the current event (its `t` field).
    pub open spec fn cur_sponsor(self) -> Any {
        self.cell(self.ep()).t
    }

    /// Can the current event's sponsor be found and read?
    pub open spec fn alloc_refs_ok(self) -> bool {
        &&& !(spec_is_ram(self.kp()) && spec_is_cap(self.kp()))
        &&& spec_is_ptr(self.ep())
        &&& spec_is_ptr(self.cur_sponsor())
        &&& valid(self.cur_sponsor())
    }

    /// What allocating a cell for the current event returns.
    pub open spec fn alloc_outcome(self, init: Quad) -> Result<Any, Error> {
        let sponsor = self.cur_sponsor();
        if !self.alloc_refs_ok() {
            Err(E_NOT_PTR)
        } else if self.quota(sponsor) <= 0 {
            Err(E_MEM_LIM)
        } else if !writable(sponsor) {
            Err(E_NOT_RAM)
        } else if !self.reserve_ok() {
            Err(self.reserve_err())
        } else {
            Ok(self.reserve_ptr())
        }
    }

    /// The contents after allocating a cell for the current event: a cell is
    /// reserved and the sponsor's memory quota is decremented.
    pub open spec fn alloc_state(self, init: Quad) -> CoreView {
        let sponsor = self.cur_sponsor();
        if self.alloc_outcome(init) is Ok {
            let w = self.reserve_state(init);
            w.set_cell(sponsor, Quad { t: spec_fix(self.quota(sponsor) - 1), ..w.cell(sponsor) })
        } else {
            self
        }
    }

    /// A sponsor's remaining memory quota (0 if it is not a fixnum).
    pub open spec fn quota(self, sponsor: Any) -> int {
        if spec_is_fix(self.cell(sponsor).t) {
            fix_val(self.cell(sponsor).t)
        } else {
            0
        }
    }
}

impl Core {
    /// Is `val` of type `typ`?
    pub fn typeq(&self, typ: Any, val: Any) -> (r: bool)
        requires
            self@.wf(),
            valid(val),
        ensures
            r == self@.typeq(typ, val),
    {
        if typ == FIXNUM_T {
            is_fix(val)
        } else if typ == ACTOR_T {
            if is_cap(val) {
                proof {
                    lemma_raw_edits(val);
                    lemma_opq_fields(val);
                }
                let ptr = val & !OPQ_RAW;
                self.mem(ptr).t == ACTOR_T
            } else {
                false
            }
        } else if is_ptr(val) {
            self.mem(val).t == typ
        } else {
            false
        }
    }

    /// Is `val` a RAM reference below the top of the heap?
    pub fn in_heap(&self, val: Any) -> (r: bool)
        requires
            self@.wf(),
        ensures
            r == self@.in_heap(val),
    {
        is_ram(val) && (ofs(val) < ofs(self.ram_top()))
    }

    /// Expand ROM by one cell, returning a pointer to it.
    pub fn reserve_rom(&mut self) -> (r: Result<Any, Error>)
        requires
            old(self)@.wf(),
        ensures
            final(self)@.wf(),
            old(self)@.rom_top < QUAD_ROM_MAX ==> r == Ok::<Any, Error>(old(self)@.rom_top)
                && final(self)@ == (CoreView { rom_top: (old(self)@.rom_top + 1) as Any, ..old(self)@ }),
            old(self)@.rom_top >= QUAD_ROM_MAX ==> r == Err::<Any, Error>(E_NO_MEM)
                && final(self)@ == old(self)@,
    {
        let next = self.rom_top();
        let top = ofs(next);
        if top >= QUAD_ROM_MAX {
            return Err(E_NO_MEM);
        }
        self.rom_top = rom_ptr(top + 1);
        Ok(next)
    }

    /// Reserve a RAM cell initialized to `init`, from the free list if it has
    /// a cell, else from the top of the heap. No sponsor is charged.
    pub fn reserve(&mut self, init: &Quad) -> (r: Result<Any, Error>)
        requires
            old(self)@.wf(),
            valid_quad(*init),
        ensures
            final(self)@.wf(),
            r is Ok <==> old(self)@.reserve_ok(),
            r matches Ok(ptr) ==> ptr == old(self)@.reserve_ptr()
                && final(self)@ == old(self)@.reserve_state(*init)
                && final(self)@.cell(ptr) == *init
                && writable(ptr),
            r matches Err(e) ==> e == old(self)@.reserve_err() && final(self)@ == old(self)@,
    {
        let next = self.ram_next();
        if self.typeq(FREE_T, next) {
            let n = match fix_num(self.ram_free()) {
                Some(n) => n,
                None => {
                    return Err(E_FAIL);
                },
            };
            if n <= 0 {
                return Err(E_FAIL);
            }
            if !is_ram(next) {
                return Err(E_NOT_RAM);
            }
            let ghost v0 = self@;
            self.set_ram_free(fix(n - 1));
            let nz = self.ram(next).z;
            self.set_ram_next(nz);
            proof {
                let m = v0.memory();
                lemma_ram_ptr(v0.phase(), 0);
                let q = Quad { x: nz, y: spec_fix(n - 1), ..v0.mem_cell() };
                assert(self@ =~= v0.set_memory(q)) by {
                    assert(self@.ram0 =~= v0.set_memory(q).ram0);
                    assert(self@.ram1 =~= v0.set_memory(q).ram1);
                }
            }
            self.store(next, *init);
            Ok(next)
        } else {
            let next = self.ram_top();
            let top = ofs(next);
            if top >= QUAD_RAM_MAX {
                return Err(E_NO_MEM);
            }
            if !is_writable(next) {
                return Err(E_NOT_RAM);
            }
            let phase = self.gc_phase();
            proof {
                lemma_ram_ptr(phase, (top + 1) as usize);
            }
            self.set_ram_top(ram_ptr(phase, top + 1));
            self.store(next, *init);
            Ok(next)
        }
    }

    /// Reserve a RAM cell for the current event, charging its sponsor one
    /// cell of memory quota.
    pub fn alloc_cell(&mut self, init: &Quad) -> (r: Result<Any, Error>)
        requires
            old(self)@.wf(),
            valid_quad(*init),
        ensures
            final(self)@.wf(),
            r == old(self)@.alloc_outcome(*init),
            final(self)@ == old(self)@.alloc_state(*init),
    {
        let kp = self.kp();
        if is_ram(kp) && is_cap(kp) {
            return Err(E_NOT_PTR);
        }
        let ep = self.ep();
        if !is_ptr(ep) {
            return Err(E_NOT_PTR);
        }
        let sponsor = self.event_sponsor(ep);
        if !(is_ptr(sponsor) && is_readable(sponsor)) {
            return Err(E_NOT_PTR);
        }
        let limit = match fix_num(self.sponsor_memory(sponsor)) {
            Some(n) => n,
            None => 0,
        };
        if limit <= 0 {
            return Err(E_MEM_LIM);
        }
        if !is_writable(sponsor) {
            return Err(E_NOT_RAM);
        }
        let ptr = self.reserve(init)?;
        self.set_sponsor_memory(sponsor, fix(limit - 1));
        Ok(ptr)
    }

    /// Return a heap cell to the free list.
    pub fn free(&mut self, ptr: Any)
        requires
            old(self)@.wf(),
            old(self)@.in_heap(ptr),
            !spec_is_cap(ptr),
            old(self)@.spare_cell(ptr),
            valid(ptr),
            !old(self)@.typeq(FREE_T, ptr),
            spec_is_fix(old(self)@.ram_free()),
            fix_val(old(self)@.ram_free()) + 1 < 0x4000_0000,
        ensures
            final(self)@.wf(),
            final(self)@ == old(self)@.free_state(ptr),
    {
        let ghost v0 = self@;
        let next = self.ram_next();
        self.ram_mut(ptr, Quad::free_t(next));
        proof {
            lemma_ram_ptr(v0.phase(), 0);
            assert(self@.phase() == v0.phase());
            assert(self@.mem_cell() == v0.mem_cell());
        }
        self.set_ram_next(ptr);
        let n = fix_num(self.ram_free()).unwrap();
        self.set_ram_free(fix(n + 1));
        proof {
            let q = Quad { x: ptr, y: spec_fix(n + 1), ..v0.mem_cell() };
            let v1 = v0.set_cell(ptr, mk(FREE_T, UNDEF, UNDEF, v0.ram_next()));
            assert(self@ =~= v1.set_memory(q)) by {
                assert(self@.ram0 =~= v1.set_memory(q).ram0);
                assert(self@.ram1 =~= v1.set_memory(q).ram1);
            }
        }
    }

    /// The continuation at the head of the continuation queue, or `UNDEF`.
    pub fn kp(&self) -> (r: Any)
        requires
            self@.wf(),
        ensures
            r == self@.kp(),
            valid(r),
    {
        let kp = self.k_first();
        if !is_ram(kp) {
            return UNDEF;
        }
        kp
    }

    /// The current instruction pointer, or `UNDEF`.
    pub fn ip(&self) -> (r: Any)
        requires
            self@.wf(),
            !(spec_is_ram(self@.kp()) && spec_is_cap(self@.kp())),
        ensures
            r == self@.ip(),
            valid_top(r),
    {
        let kp = self.kp();
        if !is_ram(kp) {
            return UNDEF;
        }
        self.mem(kp).t
    }

    /// The current stack pointer, or `UNDEF`.
    pub fn sp(&self) -> (r: Any)
        requires
            self@.wf(),
            !(spec_is_ram(self@.kp()) && spec_is_cap(self@.kp())),
        ensures
            r == self@.sp(),
            valid(r),
    {
        let kp = self.kp();
        if !is_ram(kp) {
            return UNDEF;
        }
        self.mem(kp).x
    }

    /// The current event pointer, or `UNDEF`.
    pub fn ep(&self) -> (r: Any)
        requires
            self@.wf(),
            !(spec_is_ram(self@.kp()) && spec_is_cap(self@.kp())),
        ensures
            r == self@.ep(),
            valid(r),
    {
        let kp = self.kp();
        if !is_ram(kp) {
            return UNDEF;
        }
        self.mem(kp).y
    }

    pub fn e_first(&self) -> (r: Any)
        requires
            self@.wf(),
        ensures
            r == self@.e_first(),
            valid_top(r),
    {
        self.ram(self.ddeque()).t
    }

    pub fn e_last(&self) -> (r: Any)
        requires
            self@.wf(),
        ensures
            r == self@.e_last(),
            valid(r),
    {
        self.ram(self.ddeque()).x
    }

    pub fn k_first(&self) -> (r: Any)
        requires
            self@.wf(),
        ensures
            r == self@.k_first(),
            valid(r),
    {
        self.ram(self.ddeque()).y
    }

    pub fn k_last(&self) -> (r: Any)
        requires
            self@.wf(),
        ensures
            r == self@.k_last(),
            valid(r),
    {
        self.ram(self.ddeque()).z
    }

    /// A sponsor's remaining memory quota (its `t` field).
    pub fn sponsor_memory(&self, sponsor: Any) -> (r: Any)
        requires
            self@.wf(),
            spec_is_ptr(sponsor),
            valid(sponsor),
        ensures
            r == self@.cell(sponsor).t,
    {
        self.mem(sponsor).t
    }

    pub fn set_sponsor_memory(&mut self, sponsor: Any, num: Any)
        requires
            old(self)@.wf(),
            writable(sponsor),
            valid(num),
        ensures
            final(self)@.wf(),
            final(self)@ == old(self)@.set_cell(
                sponsor,
                Quad { t: num, ..old(self)@.cell(sponsor) },
            ),
    {
        let mut q = self.ram(sponsor);
        q.t = num;
        self.ram_mut(sponsor, q);
    }

    /// A sponsor's remaining event quota (its `x` field).
    pub fn sponsor_events(&self, sponsor: Any) -> (r: Any)
        requires
            self@.wf(),
            spec_is_ptr(sponsor),
            valid(sponsor),
        ensures
            r == self@.cell(sponsor).x,
    {
        self.mem(sponsor).x
    }

    pub fn set_sponsor_events(&mut self, sponsor: Any, num: Any)
        requires
            old(self)@.wf(),
            writable(sponsor),
            valid(num),
        ensures
            final(self)@.wf(),
            final(self)@ == old(self)@.set_cell(
                sponsor,
                Quad { x: num, ..old(self)@.cell(sponsor) },
            ),
    {
        let mut q = self.ram(sponsor);
        q.x = num;
        self.ram_mut(sponsor, q);
    }

    /// A sponsor's remaining instruction quota (its `y` field).
    pub fn sponsor_instrs(&self, sponsor: Any) -> (r: Any)
        requires
            self@.wf(),
            spec_is_ptr(sponsor),
            valid(sponsor),
        ensures
            r == self@.cell(sponsor).y,
    {
        self.mem(sponsor).y
    }

    pub fn set_sponsor_instrs(&mut self, sponsor: Any, num: Any)
        requires
            old(self)@.wf(),
            writable(sponsor),
            valid(num),
        ensures
            final(self)@.wf(),
            final(self)@ == old(self)@.set_cell(
                sponsor,
                Quad { y: num, ..old(self)@.cell(sponsor) },
            ),
    {
        let mut q = self.ram(sponsor);
        q.y = num;
        self.ram_mut(sponsor, q);
    }

    /// The sponsor of an event (its `t` field).
    pub fn event_sponsor(&self, ep: Any) -> (r: Any)
        requires
            self@.wf(),
            spec_is_ptr(ep),
            valid(ep),
        ensures
            r == self@.cell(ep).t,
            valid_top(r),
    {
        self.mem(ep).t
    }
}

} // verus!

verus! {

impl CoreView {
    /// The contents after replacing the queue cell.
    pub open spec fn set_ddeque(self, q: Quad) -> CoreView {
        self.set_cell(self.ddeque(), q)
    }

    pub open spec fn dq_cell(self) -> Quad {
        self.cell(self.ddeque())
    }

    /// Writing a cell other than a memory descriptor keeps the phase and the descriptor.
    pub proof fn lemma_set_cell_frame(self, a: Any, q: Quad)
        requires
            self.wf(),
            spec_is_ram(a),
            valid(a),
            spec_ofs(a) != 0,
        ensures
            self.set_cell(a, q).phase() == self.phase(),
            self.set_cell(a, q).memory() == self.memory(),
            self.set_cell(a, q).ddeque() == self.ddeque(),
            self.set_cell(a, q).mem_cell() == self.mem_cell(),
            valid_at(a, q) ==> self.set_cell(a, q).wf(),
    {
        lemma_ram_ptr(self.phase(), 0);
        lemma_ram_ptr(self.phase(), 1);
    }
}

impl Core {
    pub(crate) fn set_ddeque_cell(&mut self, q: Quad)
        requires
            old(self)@.wf(),
            valid_quad(q),
        ensures
            final(self)@.wf(),
            final(self)@ == old(self)@.set_ddeque(q),
            final(self)@.phase() == old(self)@.phase(),
            final(self)@.mem_cell() == old(self)@.mem_cell(),
    {
        proof {
            lemma_ram_ptr(self@.phase(), 1);
            old(self)@.lemma_set_cell_frame(old(self)@.ddeque(), q);
        }
        let d = self.ddeque();
        self.ram_mut(d, q);
    }

    pub(crate) fn set_e_first(&mut self, ptr: Any)
        requires
            old(self)@.wf(),
            valid(ptr),
        ensures
            final(self)@.wf(),
            final(self)@ == old(self)@.set_ddeque(Quad { t: ptr, ..old(self)@.dq_cell() }),
            final(self)@.phase() == old(self)@.phase(),
            final(self)@.mem_cell() == old(self)@.mem_cell(),
    {
        proof {
            lemma_ram_ptr(self@.phase(), 1);
        }
        let mut q = self.ram(self.ddeque());
        q.t = ptr;
        self.set_ddeque_cell(q);
    }

    pub(crate) fn set_e_last(&mut self, ptr: Any)
        requires
            old(self)@.wf(),
            valid(ptr),
        ensures
            final(self)@.wf(),
            final(self)@ == old(self)@.set_ddeque(Quad { x: ptr, ..old(self)@.dq_cell() }),
            final(self)@.phase() == old(self)@.phase(),
            final(self)@.mem_cell() == old(self)@.mem_cell(),
    {
        proof {
            lemma_ram_ptr(self@.phase(), 1);
        }
        let mut q = self.ram(self.ddeque());
        q.x = ptr;
        self.set_ddeque_cell(q);
    }

    pub(crate) fn set_k_first(&mut self, ptr: Any)
        requires
            old(self)@.wf(),
            valid(ptr),
        ensures
            final(self)@.wf(),
            final(self)@ == old(self)@.set_ddeque(Quad { y: ptr, ..old(self)@.dq_cell() }),
            final(self)@.phase() == old(self)@.phase(),
            final(self)@.mem_cell() == old(self)@.mem_cell(),
    {
        proof {
            lemma_ram_ptr(self@.phase(), 1);
        }
        let mut q = self.ram(self.ddeque());
        q.y = ptr;
        self.set_ddeque_cell(q);
    }

    pub(crate) fn set_k_last(&mut self, ptr: Any)
        requires
            old(self)@.wf(),
            valid(ptr),
        ensures
            final(self)@.wf(),
            final(self)@ == old(self)@.set_ddeque(Quad { z: ptr, ..old(self)@.dq_cell() }),
            final(self)@.phase() == old(self)@.phase(),
            final(self)@.mem_cell() == old(self)@.mem_cell(),
    {
        proof {
            lemma_ram_ptr(self@.phase(), 1);
        }
        let mut q = self.ram(self.ddeque());
        q.z = ptr;
        self.set_ddeque_cell(q);
    }

    /// Mark a pointer to an actor as an opaque capability.
    pub fn ptr_to_cap(&self, ptr: Any) -> (r: Any)
        requires
            self@.wf(),
            spec_is_ptr(ptr),
            valid(ptr),
            self@.cell(ptr).t == ACTOR_T,
        ensures
            r == set_opq(ptr),
            spec_is_cap(r),
            valid(r),
            self@.cell(r) == self@.cell(ptr),
    {
        proof {
            lemma_raw_edits(ptr);
            lemma_opq_fields(ptr);
        }
        ptr | OPQ_RAW
    }

    /// The pointer behind an actor capability.
    pub fn cap_to_ptr(&self, cap: Any) -> (r: Any)
        requires
            self@.wf(),
            !spec_is_fix(cap),
            valid(cap),
            self@.cell(cap).t == ACTOR_T,
        ensures
            r == clear_opq(cap),
            spec_is_ptr(r),
            valid(r),
            self@.cell(r) == self@.cell(cap),
    {
        proof {
            lemma_raw_edits(cap);
            lemma_opq_fields(cap);
        }
        cap & !OPQ_RAW
    }

    /// Follow a forwarding cell left behind by the collector.
    pub(crate) fn follow_fwd(&self, val: Any) -> (r: Any)
        requires
            self@.wf(),
            valid(val),
        ensures
            r == (if spec_is_ram(val) && self@.cell(val).t == GC_FWD_T {
                self@.cell(val).z
            } else {
                val
            }),
            valid(r),
    {
        proof {
            lemma_raw_bits(val);
            lemma_raw_edits(val);
        }
        if (val & 0xC000_0000) == MUT_RAW {
            proof {
                lemma_opq_fields(val);
            }
            let ptr = val & !OPQ_RAW;
            let quad = self.ram(ptr);
            if quad.t == GC_FWD_T {
                return quad.z;
            }
        }
        val
    }

    /// The ROM cells.
    pub fn rom_buffer(&self) -> (r: &[Quad])
        requires
            self@.wf(),
        ensures
            r@ == self@.rom,
    {
        self.quad_rom.as_slice()
    }

    /// The cells of a RAM bank (`BNK_0`, or bank 1 for any other value).
    pub fn ram_buffer(&self, bank: Raw) -> (r: &[Quad])
        requires
            self@.wf(),
        ensures
            r@ == (if bank == BNK_0 { self@.ram0 } else { self@.ram1 }),
    {
        if bank == BNK_0 {
            self.quad_ram0.as_slice()
        } else {
            self.quad_ram1.as_slice()
        }
    }

    /// The blob RAM.
    pub fn blob_buffer(&self) -> (r: &[u8])
        requires
            self@.wf(),
        ensures
            r@ == self@.blob,
    {
        self.blob_ram.as_slice()
    }

    /// Read an octet of blob RAM.
    pub fn blob_read(&self, ofs: usize) -> (r: u8)
        requires
            self@.wf(),
            ofs < BLOB_RAM_MAX,
        ensures
            r == self@.blob[ofs as int],
    {
        self.blob_ram[ofs]
    }

    /// Write an octet of blob RAM.
    pub fn blob_write(&mut self, ofs: usize, data: u8)
        requires
            old(self)@.wf(),
            ofs < BLOB_RAM_MAX,
        ensures
            final(self)@.wf(),
            final(self)@ == (CoreView { blob: old(self)@.blob.update(ofs as int, data), ..old(self)@ }),
    {
        self.blob_ram.set(ofs, data);
    }

    /// Size of blob RAM, as a fixnum.
    pub fn blob_top(&self) -> (r: Any)
        requires
            self@.wf(),
        ensures
            r == spec_fix(BLOB_RAM_MAX as int),
    {
        fix(BLOB_RAM_MAX as isize)
    }

    /// The link to the next cell of a structure: none after a branch or end
    /// instruction, the rest of a pair, else the `z` field.
    pub fn next(&self, ptr: Any) -> (r: Any)
        requires
            self@.wf(),
            valid(ptr),
        ensures
            r == (if spec_is_ptr(ptr) {
                let q = self@.cell(ptr);
                if q.t == INSTR_T {
                    if q.x == VM_IF || q.x == VM_END {
                        UNDEF
                    } else {
                        q.z
                    }
                } else if q.t == PAIR_T {
                    q.y
                } else {
                    q.z
                }
            } else {
                UNDEF
            }),
    {
        if is_ptr(ptr) {
            let quad = self.mem(ptr);
            if quad.t == INSTR_T {
                let op = quad.x;
                if op == VM_IF || op == VM_END {
                    UNDEF
                } else {
                    quad.z
                }
            } else if quad.t == PAIR_T {
                quad.y
            } else {
                quad.z
            }
        } else {
            UNDEF
        }
    }
}

} // verus!

verus! {

/// Do two references designate the same cell?
pub open spec fn same_cell(a: Any, b: Any) -> bool {
    &&& mut_bit(a) == mut_bit(b)
    &&& (mut_bit(a) ==> bnk_bit(a) == bnk_bit(b))
    &&& spec_ofs(a) == spec_ofs(b)
}

impl CoreView {
    /// Writing one cell leaves the others as they were.
    pub proof fn lemma_set_cell_other(self, a: Any, q: Quad, b: Any)
        requires
            self.wf(),
            mut_bit(a),
            !spec_is_fix(a),
            valid(a),
            !spec_is_fix(b),
            valid(b),
            !same_cell(a, b),
        ensures
            self.set_cell(a, q).cell(b) == self.cell(b),
    {
        if mut_bit(b) {
            if bnk_bit(a) {
                if bnk_bit(b) {
                    assert(self.ram1.update(spec_ofs(a) as int, q)[spec_ofs(b) as int]
                        == self.ram1[spec_ofs(b) as int]);
                }
            } else {
                if !bnk_bit(b) {
                    assert(self.ram0.update(spec_ofs(a) as int, q)[spec_ofs(b) as int]
                        == self.ram0[spec_ofs(b) as int]);
                }
            }
        }
    }

    /// Writing a cell and reading it back gives what was written.
    pub proof fn lemma_set_cell_same(self, a: Any, q: Quad, b: Any)
        requires
            self.wf(),
            mut_bit(a),
            !spec_is_fix(a),
            valid(a),
            same_cell(a, b),
        ensures
            self.set_cell(a, q).cell(b) == q,
    {
        if bnk_bit(a) {
            assert(self.ram1.update(spec_ofs(a) as int, q)[spec_ofs(b) as int] == q);
        } else {
            assert(self.ram0.update(spec_ofs(a) as int, q)[spec_ofs(b) as int] == q);
        }
    }
}

} // verus!

verus! {

impl CoreView {
    /// What a successful allocation leaves in the allocated cell and elsewhere:
    /// the cell holds `init`, except that its `t` field is the sponsor's new
    /// quota when the allocated cell is the sponsor's own cell; every cell other
    /// than the allocated one, the sponsor's and the memory descriptor is as it was.
    #[verifier::spinoff_prover]
    #[verifier::rlimit(40)]
    pub proof fn lemma_alloc_cell(self, init: Quad, b: Any)
        requires
            self.wf(),
            valid_quad(init),
            self.alloc_outcome(init) is Ok,
        ensures
            ({
                let p = self.reserve_ptr();
                let w = self.alloc_state(init);
                let s = self.cur_sponsor();
                &&& writable(p)
                &&& writable(s)
                &&& w.wf()
                &&& spec_ofs(p) != 0 && spec_ofs(s) != 0 ==> w.phase() == self.phase()
                &&& w.cell(p).x == init.x && w.cell(p).y == init.y && w.cell(p).z == init.z
                &&& (w.cell(p).t == init.t || spec_is_fix(w.cell(p).t))
                &&& !same_cell(p, s) ==> w.cell(p) == init
                &&& (readable(b) && !same_cell(b, p) && !same_cell(b, s) && !same_cell(b, self.memory()))
                    ==> w.cell(b) == self.cell(b)
            }),
    {
        let p = self.reserve_ptr();
        let s = self.cur_sponsor();
        let m = self.memory();
        lemma_ram_ptr(self.phase(), 0);
        let q = if self.free_path() {
            Quad { x: self.cell(p).z, y: spec_fix(fix_val(self.ram_free()) - 1), ..self.mem_cell() }
        } else {
            Quad { t: spec_ram_ptr(self.phase(), (spec_ofs(p) + 1) as usize), ..self.mem_cell() }
        };
        let v1 = self.set_memory(q);
        let v2 = v1.set_cell(p, init);
        assert(v2 == self.reserve_state(init));
        let q2 = Quad { t: spec_fix(self.quota(s) - 1), ..v2.cell(s) };
        let w = v2.set_cell(s, q2);
        assert(w == self.alloc_state(init));
        if !self.free_path() {
            lemma_ram_ptr(self.phase(), (spec_ofs(p) + 1) as usize);
        }
        assert(valid_cell(q));
        assert(v1.wf());
        assert(v2.wf());
        assert(valid_cell(q2)) by {
            lemma_fix_roundtrip(self.quota(s) - 1);
        }
        assert(w.wf());
        if same_cell(p, s) {
            v2.lemma_set_cell_same(s, q2, p);
            v1.lemma_set_cell_same(p, init, s);
        } else {
            v2.lemma_set_cell_other(s, q2, p);
            v1.lemma_set_cell_same(p, init, p);
        }
        if readable(b) && !same_cell(b, p) && !same_cell(b, s) && !same_cell(b, m) {
            self.lemma_set_cell_other(m, q, b);
            v1.lemma_set_cell_other(p, init, b);
            v2.lemma_set_cell_other(s, q2, b);
        }
        if spec_ofs(p) != 0 && spec_ofs(s) != 0 {
            if self.phase() == BNK_0 {
                self.lemma_set_cell_same(m, q, m);
                v1.lemma_set_cell_other(p, init, m);
                v2.lemma_set_cell_other(s, q2, m);
            } else {
                let z = spec_ram_ptr(BNK_0, 0);
                lemma_ram_ptr(BNK_0, 0);
                self.lemma_set_cell_other(m, q, z);
                v1.lemma_set_cell_other(p, init, z);
                v2.lemma_set_cell_other(s, q2, z);
            }
        }
    }
}

} // verus!
