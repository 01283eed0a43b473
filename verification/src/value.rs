//! Tagged 32-bit machine values.
//!
//! A value is a raw 32-bit word. The top bit marks a fixnum (a 31-bit
//! two's-complement integer); otherwise the word is a reference to a quad-cell,
//! with bits for "mutable" (RAM rather than ROM), "opaque" (an actor
//! capability rather than a navigable pointer) and "bank" (which half-space of
//! RAM), and a 28-bit cell offset.
use vstd::prelude::*;

verus! {

/// Raw machine word.
pub type Raw = u32;

/// Fixnum integer type.
pub type Num = i32;

/// A tagged value: a fixnum, a pointer or a capability.
pub type Any = u32;

/// Error code (negative for errors).
pub type Error = i32;

pub const DIR_RAW: Raw = 0x8000_0000;
pub const MUT_RAW: Raw = 0x4000_0000;
pub const OPQ_RAW: Raw = 0x2000_0000;
pub const BNK_RAW: Raw = 0x1000_0000;
pub const MSK_RAW: Raw = 0xF000_0000;

pub const BNK_0: Raw = 0;
pub const BNK_1: Raw = 0x1000_0000;

// literal values and type markers in ROM
pub const UNDEF: Any = 0;
pub const NIL: Any = 1;
pub const FALSE: Any = 2;
pub const TRUE: Any = 3;
pub const UNIT: Any = 4;
pub const EMPTY_DQ: Any = 5;
pub const TYPE_T: Any = 6;
pub const FIXNUM_T: Any = 7;
pub const ACTOR_T: Any = 8;
pub const PROXY_T: Any = 9;
pub const STUB_T: Any = 10;
pub const INSTR_T: Any = 11;
pub const PAIR_T: Any = 12;
pub const DICT_T: Any = 13;
pub const GC_FWD_T: Any = 14;
pub const FREE_T: Any = 15;
pub const LITERAL_T: Any = 0;

// small fixnums
pub const MINUS_5: Any = 0xFFFF_FFFB;
pub const MINUS_4: Any = 0xFFFF_FFFC;
pub const MINUS_3: Any = 0xFFFF_FFFD;
pub const MINUS_2: Any = 0xFFFF_FFFE;
pub const MINUS_1: Any = 0xFFFF_FFFF;
pub const ZERO: Any = 0x8000_0000;
pub const PLUS_1: Any = 0x8000_0001;
pub const PLUS_2: Any = 0x8000_0002;
pub const PLUS_3: Any = 0x8000_0003;
pub const PLUS_4: Any = 0x8000_0004;
pub const PLUS_5: Any = 0x8000_0005;
pub const PLUS_6: Any = 0x8000_0006;
pub const PLUS_7: Any = 0x8000_0007;
pub const PLUS_8: Any = 0x8000_0008;
pub const PLUS_9: Any = 0x8000_0009;

// error codes
pub const E_OK: Error = 0;
pub const E_FAIL: Error = -1;
pub const E_BOUNDS: Error = -2;
pub const E_NO_MEM: Error = -3;
pub const E_NOT_FIX: Error = -4;
pub const E_NOT_CAP: Error = -5;
pub const E_NOT_PTR: Error = -6;
pub const E_NOT_ROM: Error = -7;
pub const E_NOT_RAM: Error = -8;
pub const E_MEM_LIM: Error = -9;
pub const E_CPU_LIM: Error = -10;
pub const E_MSG_LIM: Error = -11;
pub const E_ASSERT: Error = -12;

// instruction op-codes
pub const VM_TYPEQ: Any = 0x8000_0000;
pub const VM_DICT: Any = 0x8000_0004;
pub const VM_PAIR: Any = 0x8000_0005;
pub const VM_PART: Any = 0x8000_0006;
pub const VM_NTH: Any = 0x8000_0007;
pub const VM_PUSH: Any = 0x8000_0008;
pub const VM_DEPTH: Any = 0x8000_0009;
pub const VM_DROP: Any = 0x8000_000A;
pub const VM_PICK: Any = 0x8000_000B;
pub const VM_DUP: Any = 0x8000_000C;
pub const VM_ROLL: Any = 0x8000_000D;
pub const VM_ALU: Any = 0x8000_000E;
pub const VM_EQ: Any = 0x8000_000F;
pub const VM_CMP: Any = 0x8000_0010;
pub const VM_IF: Any = 0x8000_0011;
pub const VM_MSG: Any = 0x8000_0012;
pub const VM_MY: Any = 0x8000_0013;
pub const VM_SEND: Any = 0x8000_0014;
pub const VM_NEW: Any = 0x8000_0015;
pub const VM_BEH: Any = 0x8000_0016;
pub const VM_END: Any = 0x8000_0017;
pub const VM_IS_EQ: Any = 0x8000_0018;
pub const VM_IS_NE: Any = 0x8000_0019;
pub const VM_DEQUE: Any = 0x8000_001A;

// VM_DICT sub-operations
pub const DICT_HAS: Any = 0x8000_0000;
pub const DICT_GET: Any = 0x8000_0001;
pub const DICT_ADD: Any = 0x8000_0002;
pub const DICT_SET: Any = 0x8000_0003;
pub const DICT_DEL: Any = 0x8000_0004;

// VM_DEQUE sub-operations
pub const DEQUE_NEW: Any = 0x8000_0000;
pub const DEQUE_EMPTY: Any = 0x8000_0001;
pub const DEQUE_PUSH: Any = 0x8000_0002;
pub const DEQUE_POP: Any = 0x8000_0003;
pub const DEQUE_PUT: Any = 0x8000_0004;
pub const DEQUE_PULL: Any = 0x8000_0005;
pub const DEQUE_LEN: Any = 0x8000_0006;

// VM_ALU sub-operations
pub const ALU_NOT: Any = 0x8000_0000;
pub const ALU_AND: Any = 0x8000_0001;
pub const ALU_OR: Any = 0x8000_0002;
pub const ALU_XOR: Any = 0x8000_0003;
pub const ALU_ADD: Any = 0x8000_0004;
pub const ALU_SUB: Any = 0x8000_0005;
pub const ALU_MUL: Any = 0x8000_0006;

// VM_CMP sub-operations
pub const CMP_EQ: Any = 0x8000_0000;
pub const CMP_GE: Any = 0x8000_0001;
pub const CMP_GT: Any = 0x8000_0002;
pub const CMP_LT: Any = 0x8000_0003;
pub const CMP_LE: Any = 0x8000_0004;
pub const CMP_NE: Any = 0x8000_0005;

// VM_MY sub-operations
pub const MY_SELF: Any = 0x8000_0000;
pub const MY_BEH: Any = 0x8000_0001;
pub const MY_STATE: Any = 0x8000_0002;

// VM_END sub-operations
pub const END_ABORT: Any = 0xFFFF_FFFF;
pub const END_STOP: Any = 0x8000_0000;
pub const END_COMMIT: Any = 0x8000_0001;
pub const END_RELEASE: Any = 0x8000_0002;

/// Smallest fixnum.
pub const FIX_MIN: i64 = -0x4000_0000;
/// One past the largest fixnum.
pub const FIX_END: i64 = 0x4000_0000;

pub open spec fn spec_is_fix(a: Any) -> bool {
    a >= 0x8000_0000
}

/// The "mutable" bit: the value refers to RAM.
pub open spec fn mut_bit(a: Any) -> bool {
    a % 0x8000_0000 >= 0x4000_0000
}

/// The "opaque" bit: the value is a capability.
pub open spec fn opq_bit(a: Any) -> bool {
    a % 0x4000_0000 >= 0x2000_0000
}

/// The "bank" bit: the value refers to RAM bank 1.
pub open spec fn bnk_bit(a: Any) -> bool {
    a % 0x2000_0000 >= 0x1000_0000
}

pub open spec fn spec_is_cap(a: Any) -> bool {
    !spec_is_fix(a) && opq_bit(a)
}

pub open spec fn spec_is_ptr(a: Any) -> bool {
    !spec_is_fix(a) && !opq_bit(a)
}

pub open spec fn spec_is_rom(a: Any) -> bool {
    a < 0x4000_0000
}

pub open spec fn spec_is_ram(a: Any) -> bool {
    0x4000_0000 <= a < 0x8000_0000
}

pub open spec fn spec_ofs(a: Any) -> usize {
    (a % 0x1000_0000) as usize
}

pub open spec fn spec_bank(a: Any) -> Option<Raw> {
    if spec_is_ram(a) {
        Some(if bnk_bit(a) { BNK_1 } else { BNK_0 })
    } else {
        None
    }
}

/// The value with its opaque bit cleared (a capability seen as a pointer).
pub open spec fn clear_opq(a: Any) -> Any {
    if opq_bit(a) { (a - 0x2000_0000) as Any } else { a }
}

/// The value with its opaque bit set (a pointer seen as a capability).
pub open spec fn set_opq(a: Any) -> Any {
    if opq_bit(a) { a } else { (a + 0x2000_0000) as Any }
}

/// The value with its bank bit cleared.
pub open spec fn clear_bnk(a: Any) -> Any {
    if bnk_bit(a) { (a - 0x1000_0000) as Any } else { a }
}

/// The integer a fixnum stands for (31-bit two's complement).
pub open spec fn fix_val(a: Any) -> int {
    let v = a % 0x8000_0000;
    if v >= 0x4000_0000 { v - 0x8000_0000 } else { v as int }
}

pub open spec fn spec_fix_num(a: Any) -> Option<isize> {
    if spec_is_fix(a) { Some(fix_val(a) as isize) } else { None }
}

pub open spec fn is_fixnum_range(n: int) -> bool {
    FIX_MIN <= n < FIX_END
}

/// The fixnum that stands for `n` (which must lie in fixnum range).
pub open spec fn spec_fix(n: int) -> Any {
    if n >= 0 { (0x8000_0000 + n) as Any } else { (0x1_0000_0000 + n) as Any }
}

/// The 31-bit wrap-around of any integer into fixnum range.
pub open spec fn wrap31(n: int) -> int {
    let v = n % 0x8000_0000;
    if v >= 0x4000_0000 { v - 0x8000_0000 } else { v }
}

pub open spec fn spec_rom_ptr(ofs: usize) -> Any {
    (ofs % 0x1000_0000) as Any
}

/// RAM pointer into `bank` (which is `BNK_0` or `BNK_1`).
pub open spec fn spec_ram_ptr(bank: Raw, ofs: usize) -> Any {
    (0x4000_0000 + bank + ofs % 0x1000_0000) as Any
}

pub open spec fn is_bank(bank: Raw) -> bool {
    bank == BNK_0 || bank == BNK_1
}

/// Facts about the bit masks used on raw values, in arithmetic form.
pub proof fn lemma_raw_bits(a: Any)
    ensures
        (a & DIR_RAW != 0) == spec_is_fix(a),
        ((a & 0xA000_0000) == OPQ_RAW) == spec_is_cap(a),
        ((a & 0xA000_0000) == 0) == spec_is_ptr(a),
        ((a & 0xC000_0000) == 0) == spec_is_rom(a),
        ((a & 0xC000_0000) == MUT_RAW) == spec_is_ram(a),
        (a & !MSK_RAW) == a % 0x1000_0000,
        (a & BNK_RAW) == (if bnk_bit(a) { BNK_1 } else { BNK_0 }),
        (a & MUT_RAW != 0) == mut_bit(a),
{
    assert((a & 0x4000_0000 != 0) == (a % 0x8000_0000 >= 0x4000_0000)) by (bit_vector);
    assert((a & 0x8000_0000 != 0) == (a >= 0x8000_0000)) by (bit_vector);
    assert(((a & 0xA000_0000) == 0x2000_0000) == (a < 0x8000_0000 && a % 0x4000_0000
        >= 0x2000_0000)) by (bit_vector);
    assert(((a & 0xA000_0000) == 0) == (a < 0x8000_0000 && a % 0x4000_0000 < 0x2000_0000))
        by (bit_vector);
    assert(((a & 0xC000_0000) == 0) == (a < 0x4000_0000)) by (bit_vector);
    assert(((a & 0xC000_0000) == 0x4000_0000) == (0x4000_0000 <= a && a < 0x8000_0000))
        by (bit_vector);
    assert((a & !0xF000_0000u32) == a % 0x1000_0000) by (bit_vector);
    assert((a & 0x1000_0000) == (if a % 0x2000_0000 >= 0x1000_0000 {
        0x1000_0000u32
    } else {
        0u32
    })) by (bit_vector);
}

/// Facts about setting and clearing the opaque and bank bits, in arithmetic form.
pub proof fn lemma_raw_edits(a: Any)
    ensures
        (a & !OPQ_RAW) == clear_opq(a),
        (a | OPQ_RAW) == set_opq(a),
        (a & !BNK_RAW) == clear_bnk(a),
{
    assert((a & !0x2000_0000u32) == (if a % 0x4000_0000 >= 0x2000_0000 {
        (a - 0x2000_0000) as u32
    } else {
        a
    })) by (bit_vector);
    assert((a | 0x2000_0000u32) == (if a % 0x4000_0000 >= 0x2000_0000 {
        a
    } else {
        (a + 0x2000_0000) as u32
    })) by (bit_vector);
    assert((a & !0x1000_0000u32) == (if a % 0x2000_0000 >= 0x1000_0000 {
        (a - 0x1000_0000) as u32
    } else {
        a
    })) by (bit_vector);
}

/// Or-ing a bank into a value whose bank bit is clear adds it.
pub proof fn lemma_set_bank(a: Any, b: Raw)
    requires
        !bnk_bit(a),
        is_bank(b),
    ensures
        (b | a) == a + b,
{
    assert((0x1000_0000u32 | a) == a + 0x1000_0000u32) by (bit_vector)
        requires
            a % 0x2000_0000 < 0x1000_0000,
    ;
    assert((0u32 | a) == a) by (bit_vector);
}

/// Clearing or setting the opaque bit keeps the other fields.
pub proof fn lemma_opq_fields(a: Any)
    requires
        !spec_is_fix(a),
    ensures
        !spec_is_fix(clear_opq(a)),
        !opq_bit(clear_opq(a)),
        mut_bit(clear_opq(a)) == mut_bit(a),
        bnk_bit(clear_opq(a)) == bnk_bit(a),
        spec_ofs(clear_opq(a)) == spec_ofs(a),
        !spec_is_fix(set_opq(a)),
        opq_bit(set_opq(a)),
        mut_bit(set_opq(a)) == mut_bit(a),
        bnk_bit(set_opq(a)) == bnk_bit(a),
        spec_ofs(set_opq(a)) == spec_ofs(a),
        spec_is_ptr(a) ==> clear_opq(a) == a,
        spec_is_cap(a) ==> set_opq(a) == a,
{
}

/// Is the value a fixnum?
#[verifier::when_used_as_spec(spec_is_fix)]
pub fn is_fix(a: Any) -> (r: bool)
    ensures
        r == spec_is_fix(a),
{
    proof {
        lemma_raw_bits(a);
    }
    (a & DIR_RAW) != 0
}

/// Is the value an opaque capability?
#[verifier::when_used_as_spec(spec_is_cap)]
pub fn is_cap(a: Any) -> (r: bool)
    ensures
        r == spec_is_cap(a),
{
    proof {
        lemma_raw_bits(a);
    }
    (a & 0xA000_0000) == OPQ_RAW
}

/// Is the value a navigable pointer (neither a fixnum nor a capability)?
#[verifier::when_used_as_spec(spec_is_ptr)]
pub fn is_ptr(a: Any) -> (r: bool)
    ensures
        r == spec_is_ptr(a),
{
    proof {
        lemma_raw_bits(a);
    }
    (a & 0xA000_0000) == 0
}

/// Does the value refer to ROM?
#[verifier::when_used_as_spec(spec_is_rom)]
pub fn is_rom(a: Any) -> (r: bool)
    ensures
        r == spec_is_rom(a),
{
    proof {
        lemma_raw_bits(a);
    }
    (a & 0xC000_0000) == 0
}

/// Does the value refer to RAM?
#[verifier::when_used_as_spec(spec_is_ram)]
pub fn is_ram(a: Any) -> (r: bool)
    ensures
        r == spec_is_ram(a),
{
    proof {
        lemma_raw_bits(a);
    }
    (a & 0xC000_0000) == MUT_RAW
}

/// The cell offset of a reference.
#[verifier::when_used_as_spec(spec_ofs)]
pub fn ofs(a: Any) -> (r: usize)
    ensures
        r == spec_ofs(a),
        r < 0x1000_0000,
{
    proof {
        lemma_raw_bits(a);
    }
    (a & !MSK_RAW) as usize
}

/// The RAM bank of a RAM reference, or `None` for any other value.
#[verifier::when_used_as_spec(spec_bank)]
pub fn bank(a: Any) -> (r: Option<Raw>)
    ensures
        r == spec_bank(a),
{
    proof {
        lemma_raw_bits(a);
    }
    if is_ram(a) {
        Some(a & BNK_RAW)
    } else {
        None
    }
}

/// The integer of a fixnum, or `None` for any other value.
#[verifier::when_used_as_spec(spec_fix_num)]
pub fn fix_num(a: Any) -> (r: Option<isize>)
    ensures
        r == spec_fix_num(a),
        r matches Some(n) ==> is_fixnum_range(n as int) && n as int == fix_val(a),
{
    if is_fix(a) {
        let v: u32 = a % 0x8000_0000;
        if v >= 0x4000_0000 {
            let n: i64 = v as i64 - 0x8000_0000i64;
            Some(n as isize)
        } else {
            Some(v as isize)
        }
    } else {
        None
    }
}

/// The integer of a fixnum, or the error `E_NOT_FIX`.
pub fn get_fix(a: Any) -> (r: Result<isize, Error>)
    ensures
        spec_is_fix(a) ==> r == Ok::<isize, Error>(fix_val(a) as isize),
        !spec_is_fix(a) ==> r == Err::<isize, Error>(E_NOT_FIX),
{
    match fix_num(a) {
        Some(n) => Ok(n),
        None => Err(E_NOT_FIX),
    }
}

/// The fixnum for `n`, which must lie in fixnum range.
pub fn fix(n: isize) -> (r: Any)
    requires
        is_fixnum_range(n as int),
    ensures
        r == spec_fix(n as int),
        spec_is_fix(r),
        fix_val(r) == n,
{
    if n >= 0 {
        (0x8000_0000i64 + n as i64) as u32
    } else {
        (0x1_0000_0000i64 + n as i64) as u32
    }
}

/// The fixnum for any integer, wrapped around to 31 bits.
pub fn fix_wrap(n: i64) -> (r: Any)
    requires
        -0x4000_0000_0000_0000 <= n < 0x4000_0000_0000_0000,
    ensures
        r == spec_fix(wrap31(n as int)),
        spec_is_fix(r),
        fix_val(r) == wrap31(n as int),
{
    let shifted: u64 = (n + 0x4000_0000_0000_0000i64) as u64;
    let v: u64 = shifted % 0x8000_0000;
    assert(v as int == (n as int) % 0x8000_0000) by {
        assert(0x4000_0000_0000_0000int == 0x8000_0000int * 0x8000_0000int);
        assert((n as int + 0x8000_0000int * 0x8000_0000int) % 0x8000_0000 == (n as int)
            % 0x8000_0000) by (nonlinear_arith);
    }
    let w: i64 = if v >= 0x4000_0000 { v as i64 - 0x8000_0000 } else { v as i64 };
    if w >= 0 {
        (0x8000_0000i64 + w) as u32
    } else {
        (0x1_0000_0000i64 + w) as u32
    }
}

/// A pointer to ROM cell `ofs`.
#[verifier::when_used_as_spec(spec_rom_ptr)]
pub fn rom_ptr(ofs: usize) -> (r: Any)
    ensures
        r == spec_rom_ptr(ofs),
{
    (ofs % 0x1000_0000) as u32
}

/// A pointer to RAM cell `ofs` of `bank`.
#[verifier::when_used_as_spec(spec_ram_ptr)]
pub fn ram_ptr(bank: Raw, ofs: usize) -> (r: Any)
    requires
        is_bank(bank),
    ensures
        r == spec_ram_ptr(bank, ofs),
{
    let o: u32 = (ofs % 0x1000_0000) as u32;
    MUT_RAW + bank + o
}

/// What a fixnum decodes to after encoding it.
pub proof fn lemma_fix_roundtrip(n: int)
    requires
        is_fixnum_range(n),
    ensures
        spec_is_fix(spec_fix(n)),
        fix_val(spec_fix(n)) == n,
        spec_fix_num(spec_fix(n)) == Some(n as isize),
{
}

/// Distinct integers in fixnum range encode to distinct fixnums.
pub proof fn law_fix_injective(n: int, m: int)
    requires
        is_fixnum_range(n),
        is_fixnum_range(m),
        spec_fix(n) == spec_fix(m),
    ensures
        n == m,
{
    lemma_fix_roundtrip(n);
    lemma_fix_roundtrip(m);
}

/// Facts about a ROM pointer to a cell that exists.
pub proof fn lemma_rom_ptr(ofs: usize)
    requires
        ofs < 0x1000_0000,
    ensures
        spec_rom_ptr(ofs) == ofs,
        spec_is_rom(spec_rom_ptr(ofs)),
        spec_is_ptr(spec_rom_ptr(ofs)),
        spec_ofs(spec_rom_ptr(ofs)) == ofs,
{
}

/// Facts about a RAM pointer to a cell that exists.
pub proof fn lemma_ram_ptr(bank: Raw, ofs: usize)
    requires
        is_bank(bank),
        ofs < 0x1000_0000,
    ensures
        spec_is_ram(spec_ram_ptr(bank, ofs)),
        spec_is_ptr(spec_ram_ptr(bank, ofs)),
        !spec_is_cap(spec_ram_ptr(bank, ofs)),
        spec_ofs(spec_ram_ptr(bank, ofs)) == ofs,
        spec_bank(spec_ram_ptr(bank, ofs)) == Some(bank),
        bnk_bit(spec_ram_ptr(bank, ofs)) == (bank == BNK_1),
{
}

} // verus!
