//! The boot image: the ROM program library, the initial RAM (memory
//! descriptor, queues, device actors, root sponsor and boot actor) and the
//! blob RAM header.
use vstd::prelude::*;
use crate::value::{
    Any, fix, rom_ptr, spec_fix, UNDEF, NIL, FALSE, TRUE, UNIT, ZERO, PLUS_1, PLUS_2, PLUS_3,
    PLUS_4, PLUS_5, PLUS_6, PLUS_8, MINUS_1, MINUS_2, MINUS_3, PAIR_T, ACTOR_T, INSTR_T,
    LITERAL_T, TYPE_T, VM_PUSH, VM_MY, VM_NEW, VM_SEND, VM_END, MY_SELF, END_COMMIT, BNK_0, ALU_ADD, ALU_SUB, CMP_EQ, CMP_LT, DEQUE_EMPTY, DEQUE_LEN, DEQUE_NEW, DEQUE_POP, DEQUE_PULL, DEQUE_PUSH, DEQUE_PUT, DICT_ADD, DICT_DEL, DICT_GET, DICT_HAS, DICT_SET, END_ABORT, END_RELEASE, END_STOP, VM_ALU, VM_BEH, VM_CMP, VM_DEQUE, VM_DICT, VM_DROP, VM_DUP, VM_EQ, VM_IF, VM_IS_EQ, VM_MSG, VM_PAIR, VM_PART, VM_PICK, VM_ROLL, VM_TYPEQ,
};
use crate::quad::{Quad, mk, instr, valid_quad, QUAD_ROM_MAX, QUAD_RAM_MAX};
use crate::cpu::{Core, CoreView, BLOB_RAM_MAX, rom_reserved, valid_cell};

verus! {

/// The first program cell of ROM.
pub const START: Any = 16;

/// The blob device actor (a capability to RAM cell 2).
pub const BLOB_DEV: Any = 0x6000_0002;
/// The clock device actor (a capability to RAM cell 3).
pub const CLOCK_DEV: Any = 0x6000_0003;
/// The i/o device actor (a capability to RAM cell 4).
pub const IO_DEV: Any = 0x6000_0004;
/// The root sponsor (RAM cell 5).
pub const SPONSOR: Any = 0x4000_0005;

// ROM program library
pub const SINK_BEH: Any = 16;
pub const COMMIT: Any = 16;
pub const SEND_0: Any = 17;
pub const CUST_SEND: Any = 18;
pub const RV_SELF: Any = 19;
pub const RV_UNDEF: Any = 20;
pub const RV_NIL: Any = 21;
pub const RV_FALSE: Any = 22;
pub const RV_TRUE: Any = 23;
pub const RV_UNIT: Any = 24;
pub const RV_ZERO: Any = 25;
pub const RV_ONE: Any = 26;
pub const RESEND: Any = 27;
pub const RELEASE: Any = 29;
pub const RELEASE_0: Any = 30;
pub const STOP: Any = 31;
pub const ABORT: Any = 32;
pub const MEMO_OFS: usize = 34;
pub const _MEMO_BEH: Any = 34;
pub const FWD_OFS: usize = MEMO_OFS + 1;
pub const _FWD_BEH: Any = 35;
pub const ONCE_OFS: usize = FWD_OFS + 2;
pub const _ONCE_BEH: Any = 37;
pub const LABEL_OFS: usize = ONCE_OFS + 2;
pub const _LABEL_BEH: Any = 39;
pub const TAG_OFS: usize = LABEL_OFS + 4;
pub const _TAG_BEH: Any = 43;
pub const ONCE_TAG_OFS: usize = TAG_OFS + 1;
pub const ONCE_TAG_BEH: Any = 44;
pub const WRAP_OFS: usize = ONCE_TAG_OFS + 2;
pub const _WRAP_BEH: Any = 46;
pub const UNWRAP_OFS: usize = WRAP_OFS + 3;
pub const _UNWRAP_BEH: Any = 49;
pub const FUTURE_OFS: usize = UNWRAP_OFS + 2;
pub const _FUTURE_BEH: Any = 51;
pub const WAIT_OFS: usize = FUTURE_OFS + 17;
pub const _WAIT_BEH: Any = 68;
pub const VALUE_OFS: usize = WAIT_OFS + 23;
pub const _VALUE_BEH: Any = 91;
pub const SERIAL_OFS: usize = VALUE_OFS + 6;
pub const _SERIAL_BEH: Any = 97;
pub const BUSY_OFS: usize = SERIAL_OFS + 12;
pub const _BUSY_BEH: Any = 109;
pub const F_FIB_OFS: usize = BUSY_OFS + 30;
pub const F_FIB_BEH: Any = 139;
pub const F_FIB_K: Any = 161;
pub const F_FIB_K2: Any = 164;
pub const IS_EQ_OFS: usize = F_FIB_OFS + 28;
pub const _IS_EQ_BEH: Any = 167;
pub const TEST_OFS: usize = IS_EQ_OFS + 4;
pub const _TEST_BEH: Any = 171;
pub const EQ_8_BEH: Any = 178;
pub const T_DICT_OFS: usize = TEST_OFS + 9;
pub const _T_DICT_BEH: Any = 180;
pub const T_DEQUE_OFS: usize = T_DICT_OFS + 44;
pub const _T_DEQUE_BEH: Any = 224;
pub const T_DEV_OFS: usize = T_DEQUE_OFS + 65;
pub const _T_DEV_BEH: Any = 289;
pub const COUNT_OFS: usize = T_DEV_OFS + 16;
pub const _COUNT_BEH: Any = 305;
pub const _ROM_TOP_OFS: usize = COUNT_OFS + 8;

/// First RAM offset of the boot actor and its program.
pub const BOOT_OFS: usize = 6;
/// The boot actor (a capability).
pub const A_BOOT: Any = 0x6000_0006;
/// The boot actor's behavior.
pub const _BOOT_BEH: Any = 0x4000_0007;
/// A stack of three items for the boot continuation.
pub const _BOOT_SP: Any = 0x4000_000C;
/// The boot event.
pub const E_BOOT: Any = 0x4000_000F;
/// The boot continuation.
pub const _K_BOOT: Any = 0x4000_0010;
/// First free RAM offset after the boot image.
pub const _RAM_TOP_OFS: usize = 17;

/// The initial contents of RAM bank 0, cell by cell.
pub open spec fn boot_ram(i: int) -> Quad {
    if i == 0 {
        mk(0x4000_0011, NIL, ZERO, 0x4000_0001)
    } else if i == 1 {
        mk(NIL, NIL, NIL, NIL)
    } else if i == 2 {
        mk(ACTOR_T, ZERO, NIL, UNDEF)
    } else if i == 3 {
        mk(ACTOR_T, PLUS_1, NIL, UNDEF)
    } else if i == 4 {
        mk(ACTOR_T, PLUS_2, NIL, UNDEF)
    } else if i == 5 {
        mk(spec_fix(512), spec_fix(64), spec_fix(512), UNDEF)
    } else if i == 6 {
        mk(ACTOR_T, SINK_BEH, NIL, UNDEF)
    } else if i == 7 {
        instr(VM_PUSH, UNIT, 0x4000_0008)
    } else if i == 8 {
        instr(VM_MY, MY_SELF, 0x4000_0009)
    } else if i == 9 {
        instr(VM_PUSH, _T_DICT_BEH, 0x4000_000A)
    } else if i == 10 {
        instr(VM_NEW, ZERO, 0x4000_000B)
    } else if i == 11 {
        instr(VM_SEND, PLUS_2, COMMIT)
    } else if i == 12 {
        mk(PAIR_T, PLUS_1, 0x4000_000D, UNDEF)
    } else if i == 13 {
        mk(PAIR_T, PLUS_2, 0x4000_000E, UNDEF)
    } else if i == 14 {
        mk(PAIR_T, PLUS_3, NIL, UNDEF)
    } else if i == 15 {
        mk(SPONSOR, A_BOOT, NIL, NIL)
    } else if i == 16 {
        mk(_T_DEV_BEH, NIL, E_BOOT, NIL)
    } else {
        mk(UNDEF, UNDEF, UNDEF, UNDEF)
    }
}

/// The initial contents of blob RAM: an OED-encoded array of one blob
/// extension filling the rest, then OED `null` octets.
pub open spec fn boot_blob(i: int) -> u8 {
    if i == 0 {
        0x88
    } else if i == 1 || i == 5 || i == 10 || i == 14 {
        0x82
    } else if i == 2 || i == 6 || i == 11 || i == 15 {
        16
    } else if i == 3 {
        1
    } else if i == 7 {
        247
    } else if i == 9 {
        0x8B
    } else if i == 16 {
        238
    } else if i == 4 || i == 8 || i == 12 || i == 13 || i == 17 {
        0
    } else {
        0x8F
    }
}

pub open spec fn all_valid(s: Seq<Quad>) -> bool {
    forall|j: int| 0 <= j < s.len() ==> valid_quad(#[trigger] s[j])
}

/// The low octet of a 16-bit number.
pub fn u16_lsb(n: usize) -> (r: u8)
    ensures
        r == n % 256,
{
    (n % 256) as u8
}

/// The high octet of a 16-bit number.
pub fn u16_msb(n: usize) -> (r: u8)
    ensures
        r == (n / 256) % 256,
{
    ((n / 256) % 256) as u8
}

/// The ROM image, cell by cell: the reserved cells, then the program
/// library up to `_ROM_TOP_OFS`; the cells above are empty.
pub open spec fn boot_rom(i: int) -> Quad {
    if i < 20 {
        rom_part_0()[i - 0]
    } else if i < 40 {
        rom_part_1()[i - 20]
    } else if i < 60 {
        rom_part_2()[i - 40]
    } else if i < 80 {
        rom_part_3()[i - 60]
    } else if i < 100 {
        rom_part_4()[i - 80]
    } else if i < 120 {
        rom_part_5()[i - 100]
    } else if i < 140 {
        rom_part_6()[i - 120]
    } else if i < 160 {
        rom_part_7()[i - 140]
    } else if i < 180 {
        rom_part_8()[i - 160]
    } else if i < 200 {
        rom_part_9()[i - 180]
    } else if i < 220 {
        rom_part_10()[i - 200]
    } else if i < 240 {
        rom_part_11()[i - 220]
    } else if i < 260 {
        rom_part_12()[i - 240]
    } else if i < 280 {
        rom_part_13()[i - 260]
    } else if i < 300 {
        rom_part_14()[i - 280]
    } else if i < 313 {
        rom_part_15()[i - 300]
    } else {
        mk(UNDEF, UNDEF, UNDEF, UNDEF)
    }
}

/// ROM cells 0 up to 20.
pub open spec fn rom_part_0() -> Seq<Quad> {
    seq![
        mk(LITERAL_T, UNDEF, UNDEF, UNDEF),
        mk(LITERAL_T, UNDEF, UNDEF, UNDEF),
        mk(LITERAL_T, UNDEF, UNDEF, UNDEF),
        mk(LITERAL_T, UNDEF, UNDEF, UNDEF),
        mk(LITERAL_T, UNDEF, UNDEF, UNDEF),
        mk(PAIR_T, NIL, NIL, UNDEF),
        mk(TYPE_T, UNDEF, UNDEF, UNDEF),
        mk(TYPE_T, UNDEF, UNDEF, UNDEF),
        mk(TYPE_T, UNDEF, UNDEF, UNDEF),
        mk(TYPE_T, UNDEF, UNDEF, UNDEF),
        mk(TYPE_T, UNDEF, UNDEF, UNDEF),
        mk(TYPE_T, UNDEF, UNDEF, UNDEF),
        mk(TYPE_T, UNDEF, UNDEF, UNDEF),
        mk(TYPE_T, UNDEF, UNDEF, UNDEF),
        mk(TYPE_T, UNDEF, UNDEF, UNDEF),
        mk(TYPE_T, UNDEF, UNDEF, UNDEF),
        instr(VM_END, END_COMMIT, UNDEF),
        instr(VM_SEND, ZERO, COMMIT),
        instr(VM_MSG, PLUS_1, SEND_0),
        instr(VM_MY, MY_SELF, CUST_SEND)
    ]
}

/// ROM cells 20 up to 40.
pub open spec fn rom_part_1() -> Seq<Quad> {
    seq![
        instr(VM_PUSH, UNDEF, CUST_SEND),
        instr(VM_PUSH, NIL, CUST_SEND),
        instr(VM_PUSH, FALSE, CUST_SEND),
        instr(VM_PUSH, TRUE, CUST_SEND),
        instr(VM_PUSH, UNIT, CUST_SEND),
        instr(VM_PUSH, ZERO, CUST_SEND),
        instr(VM_PUSH, PLUS_1, CUST_SEND),
        instr(VM_MSG, ZERO, rom_ptr(28)),
        instr(VM_MY, MY_SELF, SEND_0),
        instr(VM_END, END_RELEASE, UNDEF),
        instr(VM_SEND, ZERO, RELEASE),
        instr(VM_END, END_STOP, UNDEF),
        instr(VM_PUSH, UNDEF, rom_ptr(33)),
        instr(VM_END, END_ABORT, UNDEF),
        instr(VM_DUP, PLUS_1, CUST_SEND),
        instr(VM_MSG, ZERO, rom_ptr((FWD_OFS + 1) as usize)),
        instr(VM_PICK, PLUS_2, SEND_0),
        instr(VM_PUSH, SINK_BEH, rom_ptr((ONCE_OFS + 1) as usize)),
        instr(VM_BEH, ZERO, _FWD_BEH),
        instr(VM_MSG, ZERO, rom_ptr((LABEL_OFS + 1) as usize))
    ]
}

/// ROM cells 40 up to 60.
pub open spec fn rom_part_2() -> Seq<Quad> {
    seq![
        instr(VM_PICK, PLUS_2, rom_ptr((LABEL_OFS + 2) as usize)),
        instr(VM_PAIR, PLUS_1, rom_ptr((LABEL_OFS + 3) as usize)),
        instr(VM_PICK, PLUS_3, SEND_0),
        instr(VM_MY, MY_SELF, _LABEL_BEH),
        instr(VM_PUSH, SINK_BEH, rom_ptr((ONCE_TAG_OFS + 1) as usize)),
        instr(VM_BEH, ZERO, _TAG_BEH),
        instr(VM_MSG, ZERO, rom_ptr((WRAP_OFS + 1) as usize)),
        instr(VM_PICK, PLUS_2, rom_ptr((WRAP_OFS + 2) as usize)),
        instr(VM_SEND, PLUS_1, COMMIT),
        instr(VM_MSG, PLUS_1, rom_ptr((UNWRAP_OFS + 1) as usize)),
        instr(VM_PICK, PLUS_2, SEND_0),
        instr(VM_MSG, PLUS_1, rom_ptr((FUTURE_OFS + 1) as usize)),
        instr(VM_PICK, PLUS_3, rom_ptr((FUTURE_OFS + 2) as usize)),
        instr(VM_CMP, CMP_EQ, rom_ptr((FUTURE_OFS + 3) as usize)),
        instr(VM_IF, rom_ptr((FUTURE_OFS + 4) as usize), rom_ptr((FUTURE_OFS + 9) as usize)),
        instr(VM_PUSH, NIL, rom_ptr((FUTURE_OFS + 5) as usize)),
        instr(VM_MSG, MINUS_1, rom_ptr((FUTURE_OFS + 6) as usize)),
        instr(VM_PAIR, PLUS_1, rom_ptr((FUTURE_OFS + 7) as usize)),
        instr(VM_PUSH, _WAIT_BEH, rom_ptr((FUTURE_OFS + 8) as usize)),
        instr(VM_BEH, PLUS_3, COMMIT)
    ]
}

/// ROM cells 60 up to 80.
pub open spec fn rom_part_3() -> Seq<Quad> {
    seq![
        instr(VM_MSG, PLUS_1, rom_ptr((FUTURE_OFS + 10) as usize)),
        instr(VM_PICK, PLUS_2, rom_ptr((FUTURE_OFS + 11) as usize)),
        instr(VM_CMP, CMP_EQ, rom_ptr((FUTURE_OFS + 12) as usize)),
        instr(VM_IF, rom_ptr((FUTURE_OFS + 13) as usize), ABORT),
        instr(VM_DROP, PLUS_1, rom_ptr((FUTURE_OFS + 14) as usize)),
        instr(VM_MSG, MINUS_1, rom_ptr((FUTURE_OFS + 15) as usize)),
        instr(VM_PUSH, _VALUE_BEH, rom_ptr((FUTURE_OFS + 16) as usize)),
        instr(VM_BEH, PLUS_2, COMMIT),
        instr(VM_MSG, PLUS_1, rom_ptr((WAIT_OFS + 1) as usize)),
        instr(VM_PICK, PLUS_4, rom_ptr((WAIT_OFS + 2) as usize)),
        instr(VM_CMP, CMP_EQ, rom_ptr((WAIT_OFS + 3) as usize)),
        instr(VM_IF, rom_ptr((WAIT_OFS + 4) as usize), rom_ptr((WAIT_OFS + 8) as usize)),
        instr(VM_MSG, MINUS_1, rom_ptr((WAIT_OFS + 5) as usize)),
        instr(VM_PAIR, PLUS_1, rom_ptr((WAIT_OFS + 6) as usize)),
        instr(VM_PUSH, _WAIT_BEH, rom_ptr((WAIT_OFS + 7) as usize)),
        instr(VM_BEH, PLUS_3, COMMIT),
        instr(VM_MSG, PLUS_1, rom_ptr((WAIT_OFS + 9) as usize)),
        instr(VM_PICK, PLUS_2, rom_ptr((WAIT_OFS + 10) as usize)),
        instr(VM_CMP, CMP_EQ, rom_ptr((WAIT_OFS + 11) as usize)),
        instr(VM_IF, rom_ptr((WAIT_OFS + 12) as usize), ABORT)
    ]
}

/// ROM cells 80 up to 100.
pub open spec fn rom_part_4() -> Seq<Quad> {
    seq![
        instr(VM_DUP, PLUS_1, rom_ptr((WAIT_OFS + 13) as usize)),
        instr(VM_TYPEQ, PAIR_T, rom_ptr((WAIT_OFS + 14) as usize)),
        instr(VM_IF, rom_ptr((WAIT_OFS + 15) as usize), rom_ptr((WAIT_OFS + 19) as usize)),
        instr(VM_PART, PLUS_1, rom_ptr((WAIT_OFS + 16) as usize)),
        instr(VM_MSG, MINUS_1, rom_ptr((WAIT_OFS + 17) as usize)),
        instr(VM_ROLL, PLUS_2, rom_ptr((WAIT_OFS + 18) as usize)),
        instr(VM_SEND, ZERO, rom_ptr((WAIT_OFS + 12) as usize)),
        instr(VM_DROP, PLUS_2, rom_ptr((WAIT_OFS + 20) as usize)),
        instr(VM_MSG, MINUS_1, rom_ptr((WAIT_OFS + 21) as usize)),
        instr(VM_PUSH, _VALUE_BEH, rom_ptr((WAIT_OFS + 22) as usize)),
        instr(VM_BEH, PLUS_2, COMMIT),
        instr(VM_MSG, PLUS_1, rom_ptr((VALUE_OFS + 1) as usize)),
        instr(VM_PICK, PLUS_3, rom_ptr((VALUE_OFS + 2) as usize)),
        instr(VM_CMP, CMP_EQ, rom_ptr((VALUE_OFS + 3) as usize)),
        instr(VM_IF, rom_ptr((VALUE_OFS + 4) as usize), COMMIT),
        instr(VM_PICK, PLUS_1, rom_ptr((VALUE_OFS + 5) as usize)),
        instr(VM_MSG, MINUS_1, SEND_0),
        instr(VM_MSG, PLUS_1, rom_ptr((SERIAL_OFS + 1) as usize)),
        instr(VM_MY, MY_SELF, rom_ptr((SERIAL_OFS + 2) as usize)),
        instr(VM_PUSH, ONCE_TAG_BEH, rom_ptr((SERIAL_OFS + 3) as usize))
    ]
}

/// ROM cells 100 up to 120.
pub open spec fn rom_part_5() -> Seq<Quad> {
    seq![
        instr(VM_NEW, PLUS_1, rom_ptr((SERIAL_OFS + 4) as usize)),
        instr(VM_MSG, MINUS_1, rom_ptr((SERIAL_OFS + 5) as usize)),
        instr(VM_PICK, PLUS_2, rom_ptr((SERIAL_OFS + 6) as usize)),
        instr(VM_PAIR, PLUS_1, rom_ptr((SERIAL_OFS + 7) as usize)),
        instr(VM_PICK, PLUS_4, rom_ptr((SERIAL_OFS + 8) as usize)),
        instr(VM_SEND, ZERO, rom_ptr((SERIAL_OFS + 9) as usize)),
        instr(VM_DEQUE, DEQUE_NEW, rom_ptr((SERIAL_OFS + 10) as usize)),
        instr(VM_PUSH, _BUSY_BEH, rom_ptr((SERIAL_OFS + 11) as usize)),
        instr(VM_BEH, PLUS_4, COMMIT),
        instr(VM_MSG, PLUS_1, rom_ptr((BUSY_OFS + 1) as usize)),
        instr(VM_PICK, PLUS_3, rom_ptr((BUSY_OFS + 2) as usize)),
        instr(VM_CMP, CMP_EQ, rom_ptr((BUSY_OFS + 3) as usize)),
        instr(VM_IF, rom_ptr((BUSY_OFS + 4) as usize), rom_ptr((BUSY_OFS + 28) as usize)),
        instr(VM_MSG, MINUS_1, rom_ptr((BUSY_OFS + 5) as usize)),
        instr(VM_ROLL, PLUS_4, rom_ptr((BUSY_OFS + 6) as usize)),
        instr(VM_SEND, ZERO, rom_ptr((BUSY_OFS + 7) as usize)),
        instr(VM_DEQUE, DEQUE_POP, rom_ptr((BUSY_OFS + 8) as usize)),
        instr(VM_DUP, PLUS_1, rom_ptr((BUSY_OFS + 9) as usize)),
        instr(VM_EQ, UNDEF, rom_ptr((BUSY_OFS + 10) as usize)),
        instr(VM_IF, rom_ptr((BUSY_OFS + 11) as usize), rom_ptr((BUSY_OFS + 14) as usize))
    ]
}

/// ROM cells 120 up to 140.
pub open spec fn rom_part_6() -> Seq<Quad> {
    seq![
        instr(VM_DROP, PLUS_3, rom_ptr((BUSY_OFS + 12) as usize)),
        instr(VM_PUSH, _SERIAL_BEH, rom_ptr((BUSY_OFS + 13) as usize)),
        instr(VM_BEH, PLUS_1, COMMIT),
        instr(VM_PART, PLUS_1, rom_ptr((BUSY_OFS + 15) as usize)),
        instr(VM_MY, MY_SELF, rom_ptr((BUSY_OFS + 16) as usize)),
        instr(VM_PUSH, ONCE_TAG_BEH, rom_ptr((BUSY_OFS + 17) as usize)),
        instr(VM_NEW, PLUS_1, rom_ptr((BUSY_OFS + 18) as usize)),
        instr(VM_ROLL, PLUS_3, rom_ptr((BUSY_OFS + 19) as usize)),
        instr(VM_PICK, PLUS_2, rom_ptr((BUSY_OFS + 20) as usize)),
        instr(VM_PAIR, PLUS_1, rom_ptr((BUSY_OFS + 21) as usize)),
        instr(VM_PICK, PLUS_6, rom_ptr((BUSY_OFS + 22) as usize)),
        instr(VM_SEND, ZERO, rom_ptr((BUSY_OFS + 23) as usize)),
        instr(VM_ROLL, PLUS_5, rom_ptr((BUSY_OFS + 24) as usize)),
        instr(VM_ROLL, MINUS_3, rom_ptr((BUSY_OFS + 25) as usize)),
        instr(VM_ROLL, PLUS_4, rom_ptr((BUSY_OFS + 26) as usize)),
        instr(VM_PUSH, _BUSY_BEH, rom_ptr((BUSY_OFS + 27) as usize)),
        instr(VM_BEH, PLUS_4, COMMIT),
        instr(VM_MSG, ZERO, rom_ptr((BUSY_OFS + 29) as usize)),
        instr(VM_DEQUE, DEQUE_PUT, rom_ptr((BUSY_OFS + 26) as usize)),
        instr(VM_MSG, PLUS_2, rom_ptr((F_FIB_OFS + 1) as usize))
    ]
}

/// ROM cells 140 up to 160.
pub open spec fn rom_part_7() -> Seq<Quad> {
    seq![
        instr(VM_DUP, PLUS_1, rom_ptr((F_FIB_OFS + 2) as usize)),
        instr(VM_PUSH, PLUS_2, rom_ptr((F_FIB_OFS + 3) as usize)),
        instr(VM_CMP, CMP_LT, rom_ptr((F_FIB_OFS + 4) as usize)),
        instr(VM_IF, CUST_SEND, rom_ptr((F_FIB_OFS + 5) as usize)),
        instr(VM_MSG, PLUS_1, rom_ptr((F_FIB_OFS + 6) as usize)),
        instr(VM_PUSH, F_FIB_K, rom_ptr((F_FIB_OFS + 7) as usize)),
        instr(VM_NEW, PLUS_1, rom_ptr((F_FIB_OFS + 8) as usize)),
        instr(VM_PICK, PLUS_2, rom_ptr((F_FIB_OFS + 9) as usize)),
        instr(VM_PUSH, PLUS_1, rom_ptr((F_FIB_OFS + 10) as usize)),
        instr(VM_ALU, ALU_SUB, rom_ptr((F_FIB_OFS + 11) as usize)),
        instr(VM_PICK, PLUS_2, rom_ptr((F_FIB_OFS + 12) as usize)),
        instr(VM_PUSH, F_FIB_BEH, rom_ptr((F_FIB_OFS + 13) as usize)),
        instr(VM_NEW, ZERO, rom_ptr((F_FIB_OFS + 14) as usize)),
        instr(VM_SEND, PLUS_2, rom_ptr((F_FIB_OFS + 15) as usize)),
        instr(VM_ROLL, PLUS_2, rom_ptr((F_FIB_OFS + 16) as usize)),
        instr(VM_PUSH, PLUS_2, rom_ptr((F_FIB_OFS + 17) as usize)),
        instr(VM_ALU, ALU_SUB, rom_ptr((F_FIB_OFS + 18) as usize)),
        instr(VM_ROLL, PLUS_2, rom_ptr((F_FIB_OFS + 19) as usize)),
        instr(VM_PUSH, F_FIB_BEH, rom_ptr((F_FIB_OFS + 20) as usize)),
        instr(VM_NEW, ZERO, rom_ptr((F_FIB_OFS + 21) as usize))
    ]
}

/// ROM cells 160 up to 180.
pub open spec fn rom_part_8() -> Seq<Quad> {
    seq![
        instr(VM_SEND, PLUS_2, COMMIT),
        instr(VM_MSG, ZERO, rom_ptr((F_FIB_OFS + 23) as usize)),
        instr(VM_PUSH, F_FIB_K2, rom_ptr((F_FIB_OFS + 24) as usize)),
        instr(VM_BEH, PLUS_2, COMMIT),
        instr(VM_MSG, ZERO, rom_ptr((F_FIB_OFS + 26) as usize)),
        instr(VM_ALU, ALU_ADD, rom_ptr((F_FIB_OFS + 27) as usize)),
        instr(VM_ROLL, PLUS_2, SEND_0),
        instr(VM_DUP, PLUS_1, rom_ptr((IS_EQ_OFS + 1) as usize)),
        instr(VM_MSG, ZERO, rom_ptr((IS_EQ_OFS + 2) as usize)),
        instr(VM_CMP, CMP_EQ, rom_ptr((IS_EQ_OFS + 3) as usize)),
        instr(VM_IS_EQ, TRUE, COMMIT),
        instr(VM_DROP, PLUS_3, rom_ptr((TEST_OFS + 1) as usize)),
        instr(VM_PUSH, PLUS_6, rom_ptr((TEST_OFS + 2) as usize)),
        instr(VM_PUSH, EQ_8_BEH, rom_ptr((TEST_OFS + 3) as usize)),
        instr(VM_NEW, ZERO, rom_ptr((TEST_OFS + 4) as usize)),
        instr(VM_PUSH, F_FIB_BEH, rom_ptr((TEST_OFS + 5) as usize)),
        instr(VM_NEW, ZERO, rom_ptr((TEST_OFS + 6) as usize)),
        instr(VM_SEND, PLUS_2, COMMIT),
        instr(VM_MSG, ZERO, rom_ptr((TEST_OFS + 8) as usize)),
        instr(VM_IS_EQ, PLUS_8, COMMIT)
    ]
}

/// ROM cells 180 up to 200.
pub open spec fn rom_part_9() -> Seq<Quad> {
    seq![
        instr(VM_DICT, DICT_HAS, rom_ptr((T_DICT_OFS + 1) as usize)),
        instr(VM_IS_EQ, FALSE, rom_ptr((T_DICT_OFS + 2) as usize)),
        instr(VM_PUSH, NIL, rom_ptr((T_DICT_OFS + 3) as usize)),
        instr(VM_PUSH, ZERO, rom_ptr((T_DICT_OFS + 4) as usize)),
        instr(VM_DUP, PLUS_2, rom_ptr((T_DICT_OFS + 5) as usize)),
        instr(VM_DICT, DICT_HAS, rom_ptr((T_DICT_OFS + 6) as usize)),
        instr(VM_IS_EQ, FALSE, rom_ptr((T_DICT_OFS + 7) as usize)),
        instr(VM_DICT, DICT_GET, rom_ptr((T_DICT_OFS + 8) as usize)),
        instr(VM_IS_EQ, UNDEF, rom_ptr((T_DICT_OFS + 9) as usize)),
        instr(VM_PUSH, NIL, rom_ptr((T_DICT_OFS + 10) as usize)),
        instr(VM_PUSH, ZERO, rom_ptr((T_DICT_OFS + 11) as usize)),
        instr(VM_PUSH, UNIT, rom_ptr((T_DICT_OFS + 12) as usize)),
        instr(VM_DICT, DICT_SET, rom_ptr((T_DICT_OFS + 13) as usize)),
        instr(VM_PICK, PLUS_1, rom_ptr((T_DICT_OFS + 14) as usize)),
        instr(VM_PUSH, ZERO, rom_ptr((T_DICT_OFS + 15) as usize)),
        instr(VM_DICT, DICT_GET, rom_ptr((T_DICT_OFS + 16) as usize)),
        instr(VM_IS_EQ, UNIT, rom_ptr((T_DICT_OFS + 17) as usize)),
        instr(VM_PUSH, PLUS_1, rom_ptr((T_DICT_OFS + 18) as usize)),
        instr(VM_PUSH, MINUS_1, rom_ptr((T_DICT_OFS + 19) as usize)),
        instr(VM_DICT, DICT_ADD, rom_ptr((T_DICT_OFS + 20) as usize))
    ]
}

/// ROM cells 200 up to 220.
pub open spec fn rom_part_10() -> Seq<Quad> {
    seq![
        instr(VM_PICK, PLUS_1, rom_ptr((T_DICT_OFS + 21) as usize)),
        instr(VM_PUSH, ZERO, rom_ptr((T_DICT_OFS + 22) as usize)),
        instr(VM_DICT, DICT_GET, rom_ptr((T_DICT_OFS + 23) as usize)),
        instr(VM_IS_EQ, UNIT, rom_ptr((T_DICT_OFS + 24) as usize)),
        instr(VM_PUSH, ZERO, rom_ptr((T_DICT_OFS + 25) as usize)),
        instr(VM_DICT, DICT_DEL, rom_ptr((T_DICT_OFS + 26) as usize)),
        instr(VM_PICK, PLUS_1, rom_ptr((T_DICT_OFS + 27) as usize)),
        instr(VM_PUSH, ZERO, rom_ptr((T_DICT_OFS + 28) as usize)),
        instr(VM_DICT, DICT_GET, rom_ptr((T_DICT_OFS + 29) as usize)),
        instr(VM_IS_EQ, UNDEF, rom_ptr((T_DICT_OFS + 30) as usize)),
        instr(VM_PUSH, PLUS_1, rom_ptr((T_DICT_OFS + 31) as usize)),
        instr(VM_PUSH, FALSE, rom_ptr((T_DICT_OFS + 32) as usize)),
        instr(VM_DICT, DICT_ADD, rom_ptr((T_DICT_OFS + 33) as usize)),
        instr(VM_PICK, PLUS_1, rom_ptr((T_DICT_OFS + 34) as usize)),
        instr(VM_PUSH, PLUS_1, rom_ptr((T_DICT_OFS + 35) as usize)),
        instr(VM_PUSH, TRUE, rom_ptr((T_DICT_OFS + 36) as usize)),
        instr(VM_DICT, DICT_SET, rom_ptr((T_DICT_OFS + 37) as usize)),
        instr(VM_PICK, PLUS_1, rom_ptr((T_DICT_OFS + 38) as usize)),
        instr(VM_PUSH, PLUS_1, rom_ptr((T_DICT_OFS + 39) as usize)),
        instr(VM_DICT, DICT_DEL, rom_ptr((T_DICT_OFS + 40) as usize))
    ]
}

/// ROM cells 220 up to 240.
pub open spec fn rom_part_11() -> Seq<Quad> {
    seq![
        instr(VM_DUP, PLUS_1, rom_ptr((T_DICT_OFS + 41) as usize)),
        instr(VM_PUSH, PLUS_1, rom_ptr((T_DICT_OFS + 42) as usize)),
        instr(VM_DICT, DICT_GET, rom_ptr((T_DICT_OFS + 43) as usize)),
        instr(VM_IS_EQ, MINUS_1, COMMIT),
        instr(VM_DEQUE, DEQUE_EMPTY, rom_ptr((T_DEQUE_OFS + 1) as usize)),
        instr(VM_IS_EQ, TRUE, rom_ptr((T_DEQUE_OFS + 2) as usize)),
        instr(VM_DEQUE, DEQUE_NEW, rom_ptr((T_DEQUE_OFS + 3) as usize)),
        instr(VM_DUP, PLUS_1, rom_ptr((T_DEQUE_OFS + 4) as usize)),
        instr(VM_DEQUE, DEQUE_EMPTY, rom_ptr((T_DEQUE_OFS + 5) as usize)),
        instr(VM_IS_EQ, TRUE, rom_ptr((T_DEQUE_OFS + 6) as usize)),
        instr(VM_PUSH, PLUS_1, rom_ptr((T_DEQUE_OFS + 7) as usize)),
        instr(VM_DEQUE, DEQUE_PUSH, rom_ptr((T_DEQUE_OFS + 8) as usize)),
        instr(VM_PUSH, PLUS_2, rom_ptr((T_DEQUE_OFS + 9) as usize)),
        instr(VM_DEQUE, DEQUE_PUSH, rom_ptr((T_DEQUE_OFS + 10) as usize)),
        instr(VM_PUSH, PLUS_3, rom_ptr((T_DEQUE_OFS + 11) as usize)),
        instr(VM_DEQUE, DEQUE_PUSH, rom_ptr((T_DEQUE_OFS + 12) as usize)),
        instr(VM_PICK, PLUS_1, rom_ptr((T_DEQUE_OFS + 13) as usize)),
        instr(VM_DEQUE, DEQUE_EMPTY, rom_ptr((T_DEQUE_OFS + 14) as usize)),
        instr(VM_IS_EQ, FALSE, rom_ptr((T_DEQUE_OFS + 15) as usize)),
        instr(VM_PICK, PLUS_1, rom_ptr((T_DEQUE_OFS + 16) as usize))
    ]
}

/// ROM cells 240 up to 260.
pub open spec fn rom_part_12() -> Seq<Quad> {
    seq![
        instr(VM_DEQUE, DEQUE_LEN, rom_ptr((T_DEQUE_OFS + 17) as usize)),
        instr(VM_IS_EQ, PLUS_3, rom_ptr((T_DEQUE_OFS + 18) as usize)),
        instr(VM_DEQUE, DEQUE_PULL, rom_ptr((T_DEQUE_OFS + 19) as usize)),
        instr(VM_IS_EQ, PLUS_1, rom_ptr((T_DEQUE_OFS + 20) as usize)),
        instr(VM_DEQUE, DEQUE_PULL, rom_ptr((T_DEQUE_OFS + 21) as usize)),
        instr(VM_IS_EQ, PLUS_2, rom_ptr((T_DEQUE_OFS + 22) as usize)),
        instr(VM_DEQUE, DEQUE_PULL, rom_ptr((T_DEQUE_OFS + 23) as usize)),
        instr(VM_IS_EQ, PLUS_3, rom_ptr((T_DEQUE_OFS + 24) as usize)),
        instr(VM_DEQUE, DEQUE_PULL, rom_ptr((T_DEQUE_OFS + 25) as usize)),
        instr(VM_IS_EQ, UNDEF, rom_ptr((T_DEQUE_OFS + 26) as usize)),
        instr(VM_DUP, PLUS_1, rom_ptr((T_DEQUE_OFS + 27) as usize)),
        instr(VM_DEQUE, DEQUE_LEN, rom_ptr((T_DEQUE_OFS + 28) as usize)),
        instr(VM_IS_EQ, ZERO, rom_ptr((T_DEQUE_OFS + 29) as usize)),
        instr(VM_DUP, PLUS_1, rom_ptr((T_DEQUE_OFS + 30) as usize)),
        instr(VM_MSG, ZERO, rom_ptr((T_DEQUE_OFS + 31) as usize)),
        instr(VM_DEQUE, DEQUE_PUT, rom_ptr((T_DEQUE_OFS + 32) as usize)),
        instr(VM_MSG, MINUS_1, rom_ptr((T_DEQUE_OFS + 33) as usize)),
        instr(VM_DEQUE, DEQUE_PUT, rom_ptr((T_DEQUE_OFS + 34) as usize)),
        instr(VM_MSG, MINUS_2, rom_ptr((T_DEQUE_OFS + 35) as usize)),
        instr(VM_DEQUE, DEQUE_PUT, rom_ptr((T_DEQUE_OFS + 36) as usize))
    ]
}

/// ROM cells 260 up to 280.
pub open spec fn rom_part_13() -> Seq<Quad> {
    seq![
        instr(VM_DEQUE, DEQUE_POP, rom_ptr((T_DEQUE_OFS + 37) as usize)),
        instr(VM_ROLL, MINUS_2, rom_ptr((T_DEQUE_OFS + 38) as usize)),
        instr(VM_DEQUE, DEQUE_POP, rom_ptr((T_DEQUE_OFS + 39) as usize)),
        instr(VM_ROLL, MINUS_3, rom_ptr((T_DEQUE_OFS + 40) as usize)),
        instr(VM_DEQUE, DEQUE_POP, rom_ptr((T_DEQUE_OFS + 41) as usize)),
        instr(VM_IS_EQ, NIL, rom_ptr((T_DEQUE_OFS + 42) as usize)),
        instr(VM_PUSH, PLUS_1, rom_ptr((T_DEQUE_OFS + 43) as usize)),
        instr(VM_DEQUE, DEQUE_PUT, rom_ptr((T_DEQUE_OFS + 44) as usize)),
        instr(VM_PUSH, PLUS_2, rom_ptr((T_DEQUE_OFS + 45) as usize)),
        instr(VM_DEQUE, DEQUE_PUT, rom_ptr((T_DEQUE_OFS + 46) as usize)),
        instr(VM_DUP, PLUS_1, rom_ptr((T_DEQUE_OFS + 47) as usize)),
        instr(VM_DEQUE, DEQUE_EMPTY, rom_ptr((T_DEQUE_OFS + 48) as usize)),
        instr(VM_IS_EQ, FALSE, rom_ptr((T_DEQUE_OFS + 49) as usize)),
        instr(VM_DEQUE, DEQUE_POP, rom_ptr((T_DEQUE_OFS + 50) as usize)),
        instr(VM_IS_EQ, PLUS_1, rom_ptr((T_DEQUE_OFS + 51) as usize)),
        instr(VM_PUSH, PLUS_3, rom_ptr((T_DEQUE_OFS + 52) as usize)),
        instr(VM_DEQUE, DEQUE_PUT, rom_ptr((T_DEQUE_OFS + 53) as usize)),
        instr(VM_DUP, PLUS_1, rom_ptr((T_DEQUE_OFS + 54) as usize)),
        instr(VM_DEQUE, DEQUE_LEN, rom_ptr((T_DEQUE_OFS + 55) as usize)),
        instr(VM_IS_EQ, PLUS_2, rom_ptr((T_DEQUE_OFS + 56) as usize))
    ]
}

/// ROM cells 280 up to 300.
pub open spec fn rom_part_14() -> Seq<Quad> {
    seq![
        instr(VM_DEQUE, DEQUE_POP, rom_ptr((T_DEQUE_OFS + 57) as usize)),
        instr(VM_IS_EQ, PLUS_2, rom_ptr((T_DEQUE_OFS + 58) as usize)),
        instr(VM_DEQUE, DEQUE_POP, rom_ptr((T_DEQUE_OFS + 59) as usize)),
        instr(VM_IS_EQ, PLUS_3, rom_ptr((T_DEQUE_OFS + 60) as usize)),
        instr(VM_DEQUE, DEQUE_POP, rom_ptr((T_DEQUE_OFS + 61) as usize)),
        instr(VM_IS_EQ, UNDEF, rom_ptr((T_DEQUE_OFS + 62) as usize)),
        instr(VM_DUP, PLUS_1, rom_ptr((T_DEQUE_OFS + 63) as usize)),
        instr(VM_DEQUE, DEQUE_LEN, rom_ptr((T_DEQUE_OFS + 64) as usize)),
        instr(VM_IS_EQ, ZERO, COMMIT),
        instr(VM_PUSH, spec_fix(13), rom_ptr((T_DEV_OFS + 1) as usize)),
        instr(VM_PUSH, IO_DEV, rom_ptr((T_DEV_OFS + 2) as usize)),
        instr(VM_PUSH, BLOB_DEV, rom_ptr((T_DEV_OFS + 3) as usize)),
        instr(VM_SEND, PLUS_2, rom_ptr((T_DEV_OFS + 4) as usize)),
        instr(VM_PUSH, spec_fix(3), rom_ptr((T_DEV_OFS + 5) as usize)),
        instr(VM_PUSH, IO_DEV, rom_ptr((T_DEV_OFS + 6) as usize)),
        instr(VM_PUSH, BLOB_DEV, rom_ptr((T_DEV_OFS + 7) as usize)),
        instr(VM_SEND, PLUS_2, rom_ptr((T_DEV_OFS + 8) as usize)),
        instr(VM_DROP, ZERO, rom_ptr((T_DEV_OFS + 12) as usize)),
        instr(VM_PUSH, IO_DEV, rom_ptr((T_DEV_OFS + 10) as usize)),
        instr(VM_PUSH, CLOCK_DEV, rom_ptr((T_DEV_OFS + 11) as usize))
    ]
}

/// ROM cells 300 up to 313.
pub open spec fn rom_part_15() -> Seq<Quad> {
    seq![
        instr(VM_SEND, ZERO, rom_ptr((T_DEV_OFS + 12) as usize)),
        instr(VM_PUSH, PLUS_5, rom_ptr((T_DEV_OFS + 13) as usize)),
        instr(VM_PUSH, _COUNT_BEH, rom_ptr((T_DEV_OFS + 14) as usize)),
        instr(VM_NEW, ZERO, rom_ptr((T_DEV_OFS + 15) as usize)),
        instr(VM_SEND, ZERO, COMMIT),
        instr(VM_MSG, ZERO, rom_ptr((COUNT_OFS + 1) as usize)),
        instr(VM_DUP, PLUS_1, rom_ptr((COUNT_OFS + 2) as usize)),
        instr(VM_EQ, ZERO, rom_ptr((COUNT_OFS + 3) as usize)),
        instr(VM_IF, ABORT, rom_ptr((COUNT_OFS + 4) as usize)),
        instr(VM_PUSH, PLUS_1, rom_ptr((COUNT_OFS + 5) as usize)),
        instr(VM_ALU, ALU_SUB, rom_ptr((COUNT_OFS + 6) as usize)),
        instr(VM_MY, MY_SELF, rom_ptr((COUNT_OFS + 7) as usize)),
        instr(VM_SEND, ZERO, COMMIT)
    ]
}

fn put_rom(rom: &mut Vec<Quad>, i: usize, q: Quad)
    requires
        old(rom)@.len() == QUAD_ROM_MAX,
        i < QUAD_ROM_MAX,
        valid_quad(q),
        all_valid(old(rom)@),
    ensures
        final(rom)@ == old(rom)@.update(i as int, q),
        final(rom)@.len() == QUAD_ROM_MAX,
        all_valid(final(rom)@),
        i >= 16 && rom_reserved(old(rom)@) ==> rom_reserved(final(rom)@),
{
    rom.set(i, q);
    proof {
        assert forall|j: int| 0 <= j < final(rom)@.len() implies valid_quad(#[trigger] final(rom)@[j]) by {
            if j != i {
                assert(final(rom)@[j] == old(rom)@[j]);
            }
        }
        if i >= 16 && rom_reserved(old(rom)@) {
            assert forall|j: int| 0 <= j < 5 implies #[trigger] final(rom)@[j] == mk(LITERAL_T, UNDEF, UNDEF, UNDEF) by {
                assert(final(rom)@[j] == old(rom)@[j]);
            }
            assert(final(rom)@[5] == old(rom)@[5]);
            assert forall|j: int| 6 <= j < 16 implies #[trigger] final(rom)@[j] == mk(TYPE_T, UNDEF, UNDEF, UNDEF) by {
                assert(final(rom)@[j] == old(rom)@[j]);
            }
        }
    }
}

fn empty_cells(n: usize) -> (v: Vec<Quad>)
    ensures
        v@.len() == n,
        forall|j: int| 0 <= j < n ==> #[trigger] v@[j] == mk(UNDEF, UNDEF, UNDEF, UNDEF),
{
    let mut v: Vec<Quad> = Vec::new();
    let mut i: usize = 0;
    while i < n
        invariant
            i <= n,
            v@.len() == i,
            forall|j: int| 0 <= j < i ==> #[trigger] v@[j] == mk(UNDEF, UNDEF, UNDEF, UNDEF),
        decreases n - i,
    {
        v.push(Quad::empty_t());
        i += 1;
    }
    v
}

fn rom_image_0(rom: &mut Vec<Quad>)
    requires
        old(rom)@.len() == QUAD_ROM_MAX,
        all_valid(old(rom)@),
        forall|j: int| 0 <= j < 0 ==> #[trigger] old(rom)@[j] == boot_rom(j),
        forall|j: int| 0 <= j < QUAD_ROM_MAX ==> #[trigger] old(rom)@[j] == mk(UNDEF, UNDEF, UNDEF, UNDEF),
    ensures
        final(rom)@.len() == QUAD_ROM_MAX,
        all_valid(final(rom)@),
        rom_reserved(final(rom)@),
        forall|j: int| 0 <= j < 20 ==> #[trigger] final(rom)@[j] == boot_rom(j),
        forall|j: int| 20 <= j < QUAD_ROM_MAX ==> #[trigger] final(rom)@[j] == mk(UNDEF, UNDEF, UNDEF, UNDEF),
{
    let ghost r0 = rom@;
    put_rom(rom, 0, Quad::literal_t());
    put_rom(rom, 1, Quad::literal_t());
    put_rom(rom, 2, Quad::literal_t());
    put_rom(rom, 3, Quad::literal_t());
    put_rom(rom, 4, Quad::literal_t());
    put_rom(rom, 5, Quad::pair_t(NIL, NIL));
    put_rom(rom, 6, Quad::type_t());
    put_rom(rom, 7, Quad::type_t());
    put_rom(rom, 8, Quad::type_t());
    put_rom(rom, 9, Quad::type_t());
    put_rom(rom, 10, Quad::type_t());
    put_rom(rom, 11, Quad::type_t());
    put_rom(rom, 12, Quad::type_t());
    put_rom(rom, 13, Quad::type_t());
    put_rom(rom, 14, Quad::type_t());
    put_rom(rom, 15, Quad::type_t());
    put_rom(rom, 16, Quad::vm_end_commit());
    put_rom(rom, 17, Quad::vm_send(ZERO, COMMIT));
    put_rom(rom, 18, Quad::vm_msg(PLUS_1, SEND_0));
    put_rom(rom, 19, Quad::vm_my_self(CUST_SEND));
    proof {
        assert(rom@.subrange(0, 20) =~= rom_part_0());
        assert forall|j: int| 0 <= j < 20 implies #[trigger] rom@[j] == boot_rom(j) by {
            if j >= 0 {
                assert(rom@[j] == rom@.subrange(0, 20)[j - 0]);
            } else {
                assert(rom@[j] == r0[j]);
            }
        }
        assert forall|j: int| 20 <= j < QUAD_ROM_MAX implies #[trigger] rom@[j] == mk(UNDEF, UNDEF, UNDEF, UNDEF) by {
            assert(rom@[j] == r0[j]);
        }
    }
}

fn rom_image_1(rom: &mut Vec<Quad>)
    requires
        old(rom)@.len() == QUAD_ROM_MAX,
        all_valid(old(rom)@),
        rom_reserved(old(rom)@),
        forall|j: int| 0 <= j < 20 ==> #[trigger] old(rom)@[j] == boot_rom(j),
        forall|j: int| 20 <= j < QUAD_ROM_MAX ==> #[trigger] old(rom)@[j] == mk(UNDEF, UNDEF, UNDEF, UNDEF),
    ensures
        final(rom)@.len() == QUAD_ROM_MAX,
        all_valid(final(rom)@),
        rom_reserved(final(rom)@),
        forall|j: int| 0 <= j < 40 ==> #[trigger] final(rom)@[j] == boot_rom(j),
        forall|j: int| 40 <= j < QUAD_ROM_MAX ==> #[trigger] final(rom)@[j] == mk(UNDEF, UNDEF, UNDEF, UNDEF),
{
    let ghost r0 = rom@;
    put_rom(rom, 20, Quad::vm_push(UNDEF, CUST_SEND));
    put_rom(rom, 21, Quad::vm_push(NIL, CUST_SEND));
    put_rom(rom, 22, Quad::vm_push(FALSE, CUST_SEND));
    put_rom(rom, 23, Quad::vm_push(TRUE, CUST_SEND));
    put_rom(rom, 24, Quad::vm_push(UNIT, CUST_SEND));
    put_rom(rom, 25, Quad::vm_push(ZERO, CUST_SEND));
    put_rom(rom, 26, Quad::vm_push(PLUS_1, CUST_SEND));
    put_rom(rom, 27, Quad::vm_msg(ZERO, rom_ptr(28)));
    put_rom(rom, 28, Quad::vm_my_self(SEND_0));
    put_rom(rom, 29, Quad::vm_end_release());
    put_rom(rom, 30, Quad::vm_send(ZERO, RELEASE));
    put_rom(rom, 31, Quad::vm_end_stop());
    put_rom(rom, 32, Quad::vm_push(UNDEF, rom_ptr(33)));  // reason=#?
    put_rom(rom, 33, Quad::vm_end_abort());
    put_rom(rom, MEMO_OFS + 0, Quad::vm_dup(PLUS_1, CUST_SEND));  // value value
    put_rom(rom, FWD_OFS + 0, Quad::vm_msg(ZERO, rom_ptr(FWD_OFS + 1)));  // rcvr msg
    put_rom(rom, FWD_OFS + 1, Quad::vm_pick(PLUS_2, SEND_0));  // rcvr msg rcvr
    put_rom(rom, ONCE_OFS + 0, Quad::vm_push(SINK_BEH, rom_ptr(ONCE_OFS + 1)));  // rcvr sink-beh
    put_rom(rom, ONCE_OFS + 1, Quad::vm_beh(ZERO, _FWD_BEH));  // rcvr
    put_rom(rom, LABEL_OFS + 0, Quad::vm_msg(ZERO, rom_ptr(LABEL_OFS + 1)));  // rcvr label msg
    proof {
        assert(rom@.subrange(20, 40) =~= rom_part_1());
        assert forall|j: int| 0 <= j < 40 implies #[trigger] rom@[j] == boot_rom(j) by {
            if j >= 20 {
                assert(rom@[j] == rom@.subrange(20, 40)[j - 20]);
            } else {
                assert(rom@[j] == r0[j]);
            }
        }
        assert forall|j: int| 40 <= j < QUAD_ROM_MAX implies #[trigger] rom@[j] == mk(UNDEF, UNDEF, UNDEF, UNDEF) by {
            assert(rom@[j] == r0[j]);
        }
    }
}

fn rom_image_2(rom: &mut Vec<Quad>)
    requires
        old(rom)@.len() == QUAD_ROM_MAX,
        all_valid(old(rom)@),
        rom_reserved(old(rom)@),
        forall|j: int| 0 <= j < 40 ==> #[trigger] old(rom)@[j] == boot_rom(j),
        forall|j: int| 40 <= j < QUAD_ROM_MAX ==> #[trigger] old(rom)@[j] == mk(UNDEF, UNDEF, UNDEF, UNDEF),
    ensures
        final(rom)@.len() == QUAD_ROM_MAX,
        all_valid(final(rom)@),
        rom_reserved(final(rom)@),
        forall|j: int| 0 <= j < 60 ==> #[trigger] final(rom)@[j] == boot_rom(j),
        forall|j: int| 60 <= j < QUAD_ROM_MAX ==> #[trigger] final(rom)@[j] == mk(UNDEF, UNDEF, UNDEF, UNDEF),
{
    let ghost r0 = rom@;
    put_rom(rom, LABEL_OFS + 1, Quad::vm_pick(PLUS_2, rom_ptr(LABEL_OFS + 2)));  // rcvr label msg label
    put_rom(rom, LABEL_OFS + 2, Quad::vm_pair(PLUS_1, rom_ptr(LABEL_OFS + 3)));  // rcvr label (label . msg)
    put_rom(rom, LABEL_OFS + 3, Quad::vm_pick(PLUS_3, SEND_0));  // rcvr label (label . msg) rcvr
    put_rom(rom, TAG_OFS + 0, Quad::vm_my_self(_LABEL_BEH));  // rcvr SELF
    put_rom(rom, ONCE_TAG_OFS + 0, Quad::vm_push(SINK_BEH, rom_ptr(ONCE_TAG_OFS + 1)));  // rcvr sink-beh
    put_rom(rom, ONCE_TAG_OFS + 1, Quad::vm_beh(ZERO, _TAG_BEH));  // rcvr
    put_rom(rom, WRAP_OFS + 0, Quad::vm_msg(ZERO, rom_ptr(WRAP_OFS + 1)));  // rcvr msg
    put_rom(rom, WRAP_OFS + 1, Quad::vm_pick(PLUS_2, rom_ptr(WRAP_OFS + 2)));  // rcvr msg rcvr
    put_rom(rom, WRAP_OFS + 2, Quad::vm_send(PLUS_1, COMMIT));  // rcvr
    put_rom(rom, UNWRAP_OFS + 0, Quad::vm_msg(PLUS_1, rom_ptr(UNWRAP_OFS + 1)));  // rcvr msg
    put_rom(rom, UNWRAP_OFS + 1, Quad::vm_pick(PLUS_2, SEND_0));  // rcvr msg rcvr
    put_rom(rom, FUTURE_OFS + 0, Quad::vm_msg(PLUS_1, rom_ptr(FUTURE_OFS + 1)));  // rcap wcap tag
    put_rom(rom, FUTURE_OFS + 1, Quad::vm_pick(PLUS_3, rom_ptr(FUTURE_OFS + 2)));  // rcap wcap tag rcap
    put_rom(rom, FUTURE_OFS + 2, Quad::vm_cmp_eq(rom_ptr(FUTURE_OFS + 3)));  // rcap wcap tag==rcap
    put_rom(rom, FUTURE_OFS + 3, Quad::vm_if(rom_ptr(FUTURE_OFS + 4), rom_ptr(FUTURE_OFS + 9)));  // rcap wcap
    put_rom(rom, FUTURE_OFS + 4, Quad::vm_push(NIL, rom_ptr(FUTURE_OFS + 5)));  // rcap wcap ()
    put_rom(rom, FUTURE_OFS + 5, Quad::vm_msg(MINUS_1, rom_ptr(FUTURE_OFS + 6)));  // rcap wcap () arg
    put_rom(rom, FUTURE_OFS + 6, Quad::vm_pair(PLUS_1, rom_ptr(FUTURE_OFS + 7)));  // rcap wcap (arg)
    put_rom(rom, FUTURE_OFS + 7, Quad::vm_push(_WAIT_BEH, rom_ptr(FUTURE_OFS + 8)));  // rcap wcap (arg) wait-beh
    put_rom(rom, FUTURE_OFS + 8, Quad::vm_beh(PLUS_3, COMMIT));  // wait-beh[rcap wcap (arg)]
    proof {
        assert(rom@.subrange(40, 60) =~= rom_part_2());
        assert forall|j: int| 0 <= j < 60 implies #[trigger] rom@[j] == boot_rom(j) by {
            if j >= 40 {
                assert(rom@[j] == rom@.subrange(40, 60)[j - 40]);
            } else {
                assert(rom@[j] == r0[j]);
            }
        }
        assert forall|j: int| 60 <= j < QUAD_ROM_MAX implies #[trigger] rom@[j] == mk(UNDEF, UNDEF, UNDEF, UNDEF) by {
            assert(rom@[j] == r0[j]);
        }
    }
}

fn rom_image_3(rom: &mut Vec<Quad>)
    requires
        old(rom)@.len() == QUAD_ROM_MAX,
        all_valid(old(rom)@),
        rom_reserved(old(rom)@),
        forall|j: int| 0 <= j < 60 ==> #[trigger] old(rom)@[j] == boot_rom(j),
        forall|j: int| 60 <= j < QUAD_ROM_MAX ==> #[trigger] old(rom)@[j] == mk(UNDEF, UNDEF, UNDEF, UNDEF),
    ensures
        final(rom)@.len() == QUAD_ROM_MAX,
        all_valid(final(rom)@),
        rom_reserved(final(rom)@),
        forall|j: int| 0 <= j < 80 ==> #[trigger] final(rom)@[j] == boot_rom(j),
        forall|j: int| 80 <= j < QUAD_ROM_MAX ==> #[trigger] final(rom)@[j] == mk(UNDEF, UNDEF, UNDEF, UNDEF),
{
    let ghost r0 = rom@;
    put_rom(rom, FUTURE_OFS + 9, Quad::vm_msg(PLUS_1, rom_ptr(FUTURE_OFS + 10)));  // rcap wcap tag
    put_rom(rom, FUTURE_OFS + 10, Quad::vm_pick(PLUS_2, rom_ptr(FUTURE_OFS + 11)));  // rcap wcap tag wcap
    put_rom(rom, FUTURE_OFS + 11, Quad::vm_cmp_eq(rom_ptr(FUTURE_OFS + 12)));  // rcap wcap tag==wcap
    put_rom(rom, FUTURE_OFS + 12, Quad::vm_if(rom_ptr(FUTURE_OFS + 13), ABORT));  // rcap wcap
    put_rom(rom, FUTURE_OFS + 13, Quad::vm_drop(PLUS_1, rom_ptr(FUTURE_OFS + 14)));  // rcap
    put_rom(rom, FUTURE_OFS + 14, Quad::vm_msg(MINUS_1, rom_ptr(FUTURE_OFS + 15)));  // rcap value=arg
    put_rom(rom, FUTURE_OFS + 15, Quad::vm_push(_VALUE_BEH, rom_ptr(FUTURE_OFS + 16)));  // rcap value=arg value-beh
    put_rom(rom, FUTURE_OFS + 16, Quad::vm_beh(PLUS_2, COMMIT));  // value-beh[rcap value]
    put_rom(rom, WAIT_OFS + 0, Quad::vm_msg(PLUS_1, rom_ptr(WAIT_OFS + 1)));  // rcap wcap waiting tag
    put_rom(rom, WAIT_OFS + 1, Quad::vm_pick(PLUS_4, rom_ptr(WAIT_OFS + 2)));  // rcap wcap waiting tag rcap
    put_rom(rom, WAIT_OFS + 2, Quad::vm_cmp_eq(rom_ptr(WAIT_OFS + 3)));  // rcap wcap waiting tag==rcap
    put_rom(rom, WAIT_OFS + 3, Quad::vm_if(rom_ptr(WAIT_OFS + 4), rom_ptr(WAIT_OFS + 8)));  // rcap wcap waiting
    put_rom(rom, WAIT_OFS + 4, Quad::vm_msg(MINUS_1, rom_ptr(WAIT_OFS + 5)));  // rcap wcap waiting arg
    put_rom(rom, WAIT_OFS + 5, Quad::vm_pair(PLUS_1, rom_ptr(WAIT_OFS + 6)));  // rcap wcap (arg . waiting)
    put_rom(rom, WAIT_OFS + 6, Quad::vm_push(_WAIT_BEH, rom_ptr(WAIT_OFS + 7)));  // rcap wcap (arg . waiting) wait-beh
    put_rom(rom, WAIT_OFS + 7, Quad::vm_beh(PLUS_3, COMMIT));  // wait-beh[rcap wcap (arg . waiting)]
    put_rom(rom, WAIT_OFS + 8, Quad::vm_msg(PLUS_1, rom_ptr(WAIT_OFS + 9)));  // rcap wcap waiting tag
    put_rom(rom, WAIT_OFS + 9, Quad::vm_pick(PLUS_2, rom_ptr(WAIT_OFS + 10)));  // rcap wcap waiting tag wcap
    put_rom(rom, WAIT_OFS + 10, Quad::vm_cmp_eq(rom_ptr(WAIT_OFS + 11)));  // rcap wcap waiting tag==wcap
    put_rom(rom, WAIT_OFS + 11, Quad::vm_if(rom_ptr(WAIT_OFS + 12), ABORT));  // rcap wcap waiting
    proof {
        assert(rom@.subrange(60, 80) =~= rom_part_3());
        assert forall|j: int| 0 <= j < 80 implies #[trigger] rom@[j] == boot_rom(j) by {
            if j >= 60 {
                assert(rom@[j] == rom@.subrange(60, 80)[j - 60]);
            } else {
                assert(rom@[j] == r0[j]);
            }
        }
        assert forall|j: int| 80 <= j < QUAD_ROM_MAX implies #[trigger] rom@[j] == mk(UNDEF, UNDEF, UNDEF, UNDEF) by {
            assert(rom@[j] == r0[j]);
        }
    }
}

fn rom_image_4(rom: &mut Vec<Quad>)
    requires
        old(rom)@.len() == QUAD_ROM_MAX,
        all_valid(old(rom)@),
        rom_reserved(old(rom)@),
        forall|j: int| 0 <= j < 80 ==> #[trigger] old(rom)@[j] == boot_rom(j),
        forall|j: int| 80 <= j < QUAD_ROM_MAX ==> #[trigger] old(rom)@[j] == mk(UNDEF, UNDEF, UNDEF, UNDEF),
    ensures
        final(rom)@.len() == QUAD_ROM_MAX,
        all_valid(final(rom)@),
        rom_reserved(final(rom)@),
        forall|j: int| 0 <= j < 100 ==> #[trigger] final(rom)@[j] == boot_rom(j),
        forall|j: int| 100 <= j < QUAD_ROM_MAX ==> #[trigger] final(rom)@[j] == mk(UNDEF, UNDEF, UNDEF, UNDEF),
{
    let ghost r0 = rom@;
    put_rom(rom, WAIT_OFS + 12, Quad::vm_dup(PLUS_1, rom_ptr(WAIT_OFS + 13)));  // rcap wcap waiting waiting
    put_rom(rom, WAIT_OFS + 13, Quad::vm_typeq(PAIR_T, rom_ptr(WAIT_OFS + 14)));  // rcap wcap waiting is_pair(waiting)
    put_rom(rom, WAIT_OFS + 14, Quad::vm_if(rom_ptr(WAIT_OFS + 15), rom_ptr(WAIT_OFS + 19)));  // rcap wcap waiting
    put_rom(rom, WAIT_OFS + 15, Quad::vm_part(PLUS_1, rom_ptr(WAIT_OFS + 16)));  // rcap wcap rest first
    put_rom(rom, WAIT_OFS + 16, Quad::vm_msg(MINUS_1, rom_ptr(WAIT_OFS + 17)));  // rcap wcap rest first value=arg
    put_rom(rom, WAIT_OFS + 17, Quad::vm_roll(PLUS_2, rom_ptr(WAIT_OFS + 18)));  // rcap wcap rest value=arg first
    put_rom(rom, WAIT_OFS + 18, Quad::vm_send(ZERO, rom_ptr(WAIT_OFS + 12)));  // rcap wcap rest
    put_rom(rom, WAIT_OFS + 19, Quad::vm_drop(PLUS_2, rom_ptr(WAIT_OFS + 20)));  // rcap
    put_rom(rom, WAIT_OFS + 20, Quad::vm_msg(MINUS_1, rom_ptr(WAIT_OFS + 21)));  // rcap value=arg
    put_rom(rom, WAIT_OFS + 21, Quad::vm_push(_VALUE_BEH, rom_ptr(WAIT_OFS + 22)));  // rcap value=arg value-beh
    put_rom(rom, WAIT_OFS + 22, Quad::vm_beh(PLUS_2, COMMIT));  // value-beh[rcap value]
    put_rom(rom, VALUE_OFS + 0, Quad::vm_msg(PLUS_1, rom_ptr(VALUE_OFS + 1)));  // rcap value tag
    put_rom(rom, VALUE_OFS + 1, Quad::vm_pick(PLUS_3, rom_ptr(VALUE_OFS + 2)));  // rcap value tag rcap
    put_rom(rom, VALUE_OFS + 2, Quad::vm_cmp_eq(rom_ptr(VALUE_OFS + 3)));  // rcap value tag==rcap
    put_rom(rom, VALUE_OFS + 3, Quad::vm_if(rom_ptr(VALUE_OFS + 4), COMMIT));  // rcap value
    put_rom(rom, VALUE_OFS + 4, Quad::vm_pick(PLUS_1, rom_ptr(VALUE_OFS + 5)));  // rcap value value
    put_rom(rom, VALUE_OFS + 5, Quad::vm_msg(MINUS_1, SEND_0));  // rcap value value cust=arg
    put_rom(rom, SERIAL_OFS + 0, Quad::vm_msg(PLUS_1, rom_ptr(SERIAL_OFS + 1)));  // svc cust
    put_rom(rom, SERIAL_OFS + 1, Quad::vm_my_self(rom_ptr(SERIAL_OFS + 2)));  // svc cust SELF
    put_rom(rom, SERIAL_OFS + 2, Quad::vm_push(ONCE_TAG_BEH, rom_ptr(SERIAL_OFS + 3)));  // svc cust SELF once-tag-beh
    proof {
        assert(rom@.subrange(80, 100) =~= rom_part_4());
        assert forall|j: int| 0 <= j < 100 implies #[trigger] rom@[j] == boot_rom(j) by {
            if j >= 80 {
                assert(rom@[j] == rom@.subrange(80, 100)[j - 80]);
            } else {
                assert(rom@[j] == r0[j]);
            }
        }
        assert forall|j: int| 100 <= j < QUAD_ROM_MAX implies #[trigger] rom@[j] == mk(UNDEF, UNDEF, UNDEF, UNDEF) by {
            assert(rom@[j] == r0[j]);
        }
    }
}

fn rom_image_5(rom: &mut Vec<Quad>)
    requires
        old(rom)@.len() == QUAD_ROM_MAX,
        all_valid(old(rom)@),
        rom_reserved(old(rom)@),
        forall|j: int| 0 <= j < 100 ==> #[trigger] old(rom)@[j] == boot_rom(j),
        forall|j: int| 100 <= j < QUAD_ROM_MAX ==> #[trigger] old(rom)@[j] == mk(UNDEF, UNDEF, UNDEF, UNDEF),
    ensures
        final(rom)@.len() == QUAD_ROM_MAX,
        all_valid(final(rom)@),
        rom_reserved(final(rom)@),
        forall|j: int| 0 <= j < 120 ==> #[trigger] final(rom)@[j] == boot_rom(j),
        forall|j: int| 120 <= j < QUAD_ROM_MAX ==> #[trigger] final(rom)@[j] == mk(UNDEF, UNDEF, UNDEF, UNDEF),
{
    let ghost r0 = rom@;
    put_rom(rom, SERIAL_OFS + 3, Quad::vm_new(PLUS_1, rom_ptr(SERIAL_OFS + 4)));  // svc cust tag=once-tag-beh[SELF]
    put_rom(rom, SERIAL_OFS + 4, Quad::vm_msg(MINUS_1, rom_ptr(SERIAL_OFS + 5)));  // svc cust tag req
    put_rom(rom, SERIAL_OFS + 5, Quad::vm_pick(PLUS_2, rom_ptr(SERIAL_OFS + 6)));  // svc cust tag req tag
    put_rom(rom, SERIAL_OFS + 6, Quad::vm_pair(PLUS_1, rom_ptr(SERIAL_OFS + 7)));  // svc cust tag (tag . req)
    put_rom(rom, SERIAL_OFS + 7, Quad::vm_pick(PLUS_4, rom_ptr(SERIAL_OFS + 8)));  // svc cust tag (tag . req) svc
    put_rom(rom, SERIAL_OFS + 8, Quad::vm_send(ZERO, rom_ptr(SERIAL_OFS + 9)));  // svc cust tag
    put_rom(rom, SERIAL_OFS + 9, Quad::vm_deque_new(rom_ptr(SERIAL_OFS + 10)));  // svc cust tag pending
    put_rom(rom, SERIAL_OFS + 10, Quad::vm_push(_BUSY_BEH, rom_ptr(SERIAL_OFS + 11)));  // svc cust tag pending busy-beh
    put_rom(rom, SERIAL_OFS + 11, Quad::vm_beh(PLUS_4, COMMIT));  // busy-beh[svc cust tag pending]
    put_rom(rom, BUSY_OFS + 0, Quad::vm_msg(PLUS_1, rom_ptr(BUSY_OFS + 1)));  // svc cust tag pending cust0
    put_rom(rom, BUSY_OFS + 1, Quad::vm_pick(PLUS_3, rom_ptr(BUSY_OFS + 2)));  // svc cust tag pending cust0 tag
    put_rom(rom, BUSY_OFS + 2, Quad::vm_cmp_eq(rom_ptr(BUSY_OFS + 3)));  // svc cust tag pending cust0==tag
    put_rom(rom, BUSY_OFS + 3, Quad::vm_if(rom_ptr(BUSY_OFS + 4), rom_ptr(BUSY_OFS + 28)));  // svc cust tag pending
    put_rom(rom, BUSY_OFS + 4, Quad::vm_msg(MINUS_1, rom_ptr(BUSY_OFS + 5)));  // svc cust tag pending req0
    put_rom(rom, BUSY_OFS + 5, Quad::vm_roll(PLUS_4, rom_ptr(BUSY_OFS + 6)));  // svc tag pending req0 cust
    put_rom(rom, BUSY_OFS + 6, Quad::vm_send(ZERO, rom_ptr(BUSY_OFS + 7)));  // svc tag pending
    put_rom(rom, BUSY_OFS + 7, Quad::vm_deque_pop(rom_ptr(BUSY_OFS + 8)));  // svc tag pending1 next
    put_rom(rom, BUSY_OFS + 8, Quad::vm_dup(PLUS_1, rom_ptr(BUSY_OFS + 9)));  // svc tag pending1 next next
    put_rom(rom, BUSY_OFS + 9, Quad::vm_eq(UNDEF, rom_ptr(BUSY_OFS + 10)));  // svc tag pending1 next next==#?
    put_rom(rom, BUSY_OFS + 10, Quad::vm_if(rom_ptr(BUSY_OFS + 11), rom_ptr(BUSY_OFS + 14)));  // svc tag pending1 next
    proof {
        assert(rom@.subrange(100, 120) =~= rom_part_5());
        assert forall|j: int| 0 <= j < 120 implies #[trigger] rom@[j] == boot_rom(j) by {
            if j >= 100 {
                assert(rom@[j] == rom@.subrange(100, 120)[j - 100]);
            } else {
                assert(rom@[j] == r0[j]);
            }
        }
        assert forall|j: int| 120 <= j < QUAD_ROM_MAX implies #[trigger] rom@[j] == mk(UNDEF, UNDEF, UNDEF, UNDEF) by {
            assert(rom@[j] == r0[j]);
        }
    }
}

fn rom_image_6(rom: &mut Vec<Quad>)
    requires
        old(rom)@.len() == QUAD_ROM_MAX,
        all_valid(old(rom)@),
        rom_reserved(old(rom)@),
        forall|j: int| 0 <= j < 120 ==> #[trigger] old(rom)@[j] == boot_rom(j),
        forall|j: int| 120 <= j < QUAD_ROM_MAX ==> #[trigger] old(rom)@[j] == mk(UNDEF, UNDEF, UNDEF, UNDEF),
    ensures
        final(rom)@.len() == QUAD_ROM_MAX,
        all_valid(final(rom)@),
        rom_reserved(final(rom)@),
        forall|j: int| 0 <= j < 140 ==> #[trigger] final(rom)@[j] == boot_rom(j),
        forall|j: int| 140 <= j < QUAD_ROM_MAX ==> #[trigger] final(rom)@[j] == mk(UNDEF, UNDEF, UNDEF, UNDEF),
{
    let ghost r0 = rom@;
    put_rom(rom, BUSY_OFS + 11, Quad::vm_drop(PLUS_3, rom_ptr(BUSY_OFS + 12)));  // svc
    put_rom(rom, BUSY_OFS + 12, Quad::vm_push(_SERIAL_BEH, rom_ptr(BUSY_OFS + 13)));  // svc serial-beh
    put_rom(rom, BUSY_OFS + 13, Quad::vm_beh(PLUS_1, COMMIT));  // serial-beh[svc]
    put_rom(rom, BUSY_OFS + 14, Quad::vm_part(PLUS_1, rom_ptr(BUSY_OFS + 15)));  // svc tag pending1 req1 cust1
    put_rom(rom, BUSY_OFS + 15, Quad::vm_my_self(rom_ptr(BUSY_OFS + 16)));  // svc tag pending1 req1 cust1 SELF
    put_rom(rom, BUSY_OFS + 16, Quad::vm_push(ONCE_TAG_BEH, rom_ptr(BUSY_OFS + 17)));  // svc tag pending1 req1 cust1 SELF once-tag-beh
    put_rom(rom, BUSY_OFS + 17, Quad::vm_new(PLUS_1, rom_ptr(BUSY_OFS + 18)));  // svc tag pending1 req1 cust1 tag1=once-tag-beh[SELF]
    put_rom(rom, BUSY_OFS + 18, Quad::vm_roll(PLUS_3, rom_ptr(BUSY_OFS + 19)));  // svc tag pending1 cust1 tag1 req1
    put_rom(rom, BUSY_OFS + 19, Quad::vm_pick(PLUS_2, rom_ptr(BUSY_OFS + 20)));  // svc tag pending1 cust1 tag1 req1 tag1
    put_rom(rom, BUSY_OFS + 20, Quad::vm_pair(PLUS_1, rom_ptr(BUSY_OFS + 21)));  // svc tag pending1 cust1 tag1 (tag1 . req1)
    put_rom(rom, BUSY_OFS + 21, Quad::vm_pick(PLUS_6, rom_ptr(BUSY_OFS + 22)));  // svc tag pending1 cust1 tag1 (tag1 . req1) svc
    put_rom(rom, BUSY_OFS + 22, Quad::vm_send(ZERO, rom_ptr(BUSY_OFS + 23)));  // svc tag pending1 cust1 tag1
    put_rom(rom, BUSY_OFS + 23, Quad::vm_roll(PLUS_5, rom_ptr(BUSY_OFS + 24)));  // tag pending1 cust1 tag1 svc
    put_rom(rom, BUSY_OFS + 24, Quad::vm_roll(MINUS_3, rom_ptr(BUSY_OFS + 25)));  // tag pending1 svc cust1 tag1
    put_rom(rom, BUSY_OFS + 25, Quad::vm_roll(PLUS_4, rom_ptr(BUSY_OFS + 26)));  // tag svc cust1 tag1 pending1
    put_rom(rom, BUSY_OFS + 26, Quad::vm_push(_BUSY_BEH, rom_ptr(BUSY_OFS + 27)));  // ... svc cust1 tag1 pending1 busy-beh
    put_rom(rom, BUSY_OFS + 27, Quad::vm_beh(PLUS_4, COMMIT));  // busy-beh[svc cust1 tag1 pending1]
    put_rom(rom, BUSY_OFS + 28, Quad::vm_msg(ZERO, rom_ptr(BUSY_OFS + 29)));  // svc cust tag pending (cust0 . req0)
    put_rom(rom, BUSY_OFS + 29, Quad::vm_deque_put(rom_ptr(BUSY_OFS + 26)));  // svc cust tag pending1
    put_rom(rom, F_FIB_OFS + 0, Quad::vm_msg(PLUS_2, rom_ptr(F_FIB_OFS + 1)));  // n
    proof {
        assert(rom@.subrange(120, 140) =~= rom_part_6());
        assert forall|j: int| 0 <= j < 140 implies #[trigger] rom@[j] == boot_rom(j) by {
            if j >= 120 {
                assert(rom@[j] == rom@.subrange(120, 140)[j - 120]);
            } else {
                assert(rom@[j] == r0[j]);
            }
        }
        assert forall|j: int| 140 <= j < QUAD_ROM_MAX implies #[trigger] rom@[j] == mk(UNDEF, UNDEF, UNDEF, UNDEF) by {
            assert(rom@[j] == r0[j]);
        }
    }
}

fn rom_image_7(rom: &mut Vec<Quad>)
    requires
        old(rom)@.len() == QUAD_ROM_MAX,
        all_valid(old(rom)@),
        rom_reserved(old(rom)@),
        forall|j: int| 0 <= j < 140 ==> #[trigger] old(rom)@[j] == boot_rom(j),
        forall|j: int| 140 <= j < QUAD_ROM_MAX ==> #[trigger] old(rom)@[j] == mk(UNDEF, UNDEF, UNDEF, UNDEF),
    ensures
        final(rom)@.len() == QUAD_ROM_MAX,
        all_valid(final(rom)@),
        rom_reserved(final(rom)@),
        forall|j: int| 0 <= j < 160 ==> #[trigger] final(rom)@[j] == boot_rom(j),
        forall|j: int| 160 <= j < QUAD_ROM_MAX ==> #[trigger] final(rom)@[j] == mk(UNDEF, UNDEF, UNDEF, UNDEF),
{
    let ghost r0 = rom@;
    put_rom(rom, F_FIB_OFS + 1, Quad::vm_dup(PLUS_1, rom_ptr(F_FIB_OFS + 2)));  // n n
    put_rom(rom, F_FIB_OFS + 2, Quad::vm_push(PLUS_2, rom_ptr(F_FIB_OFS + 3)));  // n n 2
    put_rom(rom, F_FIB_OFS + 3, Quad::vm_cmp_lt(rom_ptr(F_FIB_OFS + 4)));  // n n<2
    put_rom(rom, F_FIB_OFS + 4, Quad::vm_if(CUST_SEND, rom_ptr(F_FIB_OFS + 5)));  // n
    put_rom(rom, F_FIB_OFS + 5, Quad::vm_msg(PLUS_1, rom_ptr(F_FIB_OFS + 6)));  // n cust
    put_rom(rom, F_FIB_OFS + 6, Quad::vm_push(F_FIB_K, rom_ptr(F_FIB_OFS + 7)));  // n cust fib-k
    put_rom(rom, F_FIB_OFS + 7, Quad::vm_new(PLUS_1, rom_ptr(F_FIB_OFS + 8)));  // n k=fib-k[cust]
    put_rom(rom, F_FIB_OFS + 8, Quad::vm_pick(PLUS_2, rom_ptr(F_FIB_OFS + 9)));  // n k n
    put_rom(rom, F_FIB_OFS + 9, Quad::vm_push(PLUS_1, rom_ptr(F_FIB_OFS + 10)));  // n k n 1
    put_rom(rom, F_FIB_OFS + 10, Quad::vm_alu_sub(rom_ptr(F_FIB_OFS + 11)));  // n k n-1
    put_rom(rom, F_FIB_OFS + 11, Quad::vm_pick(PLUS_2, rom_ptr(F_FIB_OFS + 12)));  // n k n-1 k
    put_rom(rom, F_FIB_OFS + 12, Quad::vm_push(F_FIB_BEH, rom_ptr(F_FIB_OFS + 13)));  // n k n-1 k fib-beh
    put_rom(rom, F_FIB_OFS + 13, Quad::vm_new(ZERO, rom_ptr(F_FIB_OFS + 14)));  // n k n-1 k fib
    put_rom(rom, F_FIB_OFS + 14, Quad::vm_send(PLUS_2, rom_ptr(F_FIB_OFS + 15)));  // n k
    put_rom(rom, F_FIB_OFS + 15, Quad::vm_roll(PLUS_2, rom_ptr(F_FIB_OFS + 16)));  // k n
    put_rom(rom, F_FIB_OFS + 16, Quad::vm_push(PLUS_2, rom_ptr(F_FIB_OFS + 17)));  // k n 2
    put_rom(rom, F_FIB_OFS + 17, Quad::vm_alu_sub(rom_ptr(F_FIB_OFS + 18)));  // k n-2
    put_rom(rom, F_FIB_OFS + 18, Quad::vm_roll(PLUS_2, rom_ptr(F_FIB_OFS + 19)));  // n-2 k
    put_rom(rom, F_FIB_OFS + 19, Quad::vm_push(F_FIB_BEH, rom_ptr(F_FIB_OFS + 20)));  // n-2 k fib-beh
    put_rom(rom, F_FIB_OFS + 20, Quad::vm_new(ZERO, rom_ptr(F_FIB_OFS + 21)));  // n-2 k fib
    proof {
        assert(rom@.subrange(140, 160) =~= rom_part_7());
        assert forall|j: int| 0 <= j < 160 implies #[trigger] rom@[j] == boot_rom(j) by {
            if j >= 140 {
                assert(rom@[j] == rom@.subrange(140, 160)[j - 140]);
            } else {
                assert(rom@[j] == r0[j]);
            }
        }
        assert forall|j: int| 160 <= j < QUAD_ROM_MAX implies #[trigger] rom@[j] == mk(UNDEF, UNDEF, UNDEF, UNDEF) by {
            assert(rom@[j] == r0[j]);
        }
    }
}

fn rom_image_8(rom: &mut Vec<Quad>)
    requires
        old(rom)@.len() == QUAD_ROM_MAX,
        all_valid(old(rom)@),
        rom_reserved(old(rom)@),
        forall|j: int| 0 <= j < 160 ==> #[trigger] old(rom)@[j] == boot_rom(j),
        forall|j: int| 160 <= j < QUAD_ROM_MAX ==> #[trigger] old(rom)@[j] == mk(UNDEF, UNDEF, UNDEF, UNDEF),
    ensures
        final(rom)@.len() == QUAD_ROM_MAX,
        all_valid(final(rom)@),
        rom_reserved(final(rom)@),
        forall|j: int| 0 <= j < 180 ==> #[trigger] final(rom)@[j] == boot_rom(j),
        forall|j: int| 180 <= j < QUAD_ROM_MAX ==> #[trigger] final(rom)@[j] == mk(UNDEF, UNDEF, UNDEF, UNDEF),
{
    let ghost r0 = rom@;
    put_rom(rom, F_FIB_OFS + 21, Quad::vm_send(PLUS_2, COMMIT));  // --
    put_rom(rom, F_FIB_OFS + 22, Quad::vm_msg(ZERO, rom_ptr(F_FIB_OFS + 23)));  // cust m
    put_rom(rom, F_FIB_OFS + 23, Quad::vm_push(F_FIB_K2, rom_ptr(F_FIB_OFS + 24)));  // cust m fib-k2
    put_rom(rom, F_FIB_OFS + 24, Quad::vm_beh(PLUS_2, COMMIT));  // fib-k2[cust m]
    put_rom(rom, F_FIB_OFS + 25, Quad::vm_msg(ZERO, rom_ptr(F_FIB_OFS + 26)));  // cust m n
    put_rom(rom, F_FIB_OFS + 26, Quad::vm_alu_add(rom_ptr(F_FIB_OFS + 27)));  // cust m+n
    put_rom(rom, F_FIB_OFS + 27, Quad::vm_roll(PLUS_2, SEND_0));  // m+n cust
    put_rom(rom, IS_EQ_OFS + 0, Quad::vm_dup(PLUS_1, rom_ptr(IS_EQ_OFS + 1)));  // expect expect
    put_rom(rom, IS_EQ_OFS + 1, Quad::vm_msg(ZERO, rom_ptr(IS_EQ_OFS + 2)));  // expect expect actual
    put_rom(rom, IS_EQ_OFS + 2, Quad::vm_cmp_eq(rom_ptr(IS_EQ_OFS + 3)));  // expect (expect == actual)
    put_rom(rom, IS_EQ_OFS + 3, Quad::vm_is_eq(TRUE, COMMIT));  // expect
    put_rom(rom, TEST_OFS + 0, Quad::vm_drop(PLUS_3, rom_ptr(TEST_OFS + 1)));  // --
    put_rom(rom, TEST_OFS + 1, Quad::vm_push(PLUS_6, rom_ptr(TEST_OFS + 2)));  // 6
    put_rom(rom, TEST_OFS + 2, Quad::vm_push(EQ_8_BEH, rom_ptr(TEST_OFS + 3)));  // 6 eq-8-beh
    put_rom(rom, TEST_OFS + 3, Quad::vm_new(ZERO, rom_ptr(TEST_OFS + 4)));  // 6 eq-8
    put_rom(rom, TEST_OFS + 4, Quad::vm_push(F_FIB_BEH, rom_ptr(TEST_OFS + 5)));  // 6 eq-8 fib-beh
    put_rom(rom, TEST_OFS + 5, Quad::vm_new(ZERO, rom_ptr(TEST_OFS + 6)));  // 6 eq-8 fib
    put_rom(rom, TEST_OFS + 6, Quad::vm_send(PLUS_2, COMMIT));  // --
    put_rom(rom, TEST_OFS + 7, Quad::vm_msg(ZERO, rom_ptr(TEST_OFS + 8)));  // msg
    put_rom(rom, TEST_OFS + 8, Quad::vm_is_eq(PLUS_8, COMMIT));  // assert_eq(8, msg)
    proof {
        assert(rom@.subrange(160, 180) =~= rom_part_8());
        assert forall|j: int| 0 <= j < 180 implies #[trigger] rom@[j] == boot_rom(j) by {
            if j >= 160 {
                assert(rom@[j] == rom@.subrange(160, 180)[j - 160]);
            } else {
                assert(rom@[j] == r0[j]);
            }
        }
        assert forall|j: int| 180 <= j < QUAD_ROM_MAX implies #[trigger] rom@[j] == mk(UNDEF, UNDEF, UNDEF, UNDEF) by {
            assert(rom@[j] == r0[j]);
        }
    }
}

fn rom_image_9(rom: &mut Vec<Quad>)
    requires
        old(rom)@.len() == QUAD_ROM_MAX,
        all_valid(old(rom)@),
        rom_reserved(old(rom)@),
        forall|j: int| 0 <= j < 180 ==> #[trigger] old(rom)@[j] == boot_rom(j),
        forall|j: int| 180 <= j < QUAD_ROM_MAX ==> #[trigger] old(rom)@[j] == mk(UNDEF, UNDEF, UNDEF, UNDEF),
    ensures
        final(rom)@.len() == QUAD_ROM_MAX,
        all_valid(final(rom)@),
        rom_reserved(final(rom)@),
        forall|j: int| 0 <= j < 200 ==> #[trigger] final(rom)@[j] == boot_rom(j),
        forall|j: int| 200 <= j < QUAD_ROM_MAX ==> #[trigger] final(rom)@[j] == mk(UNDEF, UNDEF, UNDEF, UNDEF),
{
    let ghost r0 = rom@;
    put_rom(rom, T_DICT_OFS + 0, Quad::vm_dict_has(rom_ptr(T_DICT_OFS + 1)));  // #f
    put_rom(rom, T_DICT_OFS + 1, Quad::vm_is_eq(FALSE, rom_ptr(T_DICT_OFS + 2)));  // --
    put_rom(rom, T_DICT_OFS + 2, Quad::vm_push(NIL, rom_ptr(T_DICT_OFS + 3)));  // ()
    put_rom(rom, T_DICT_OFS + 3, Quad::vm_push(ZERO, rom_ptr(T_DICT_OFS + 4)));  // () 0
    put_rom(rom, T_DICT_OFS + 4, Quad::vm_dup(PLUS_2, rom_ptr(T_DICT_OFS + 5)));  // () 0 () 0
    put_rom(rom, T_DICT_OFS + 5, Quad::vm_dict_has(rom_ptr(T_DICT_OFS + 6)));  // #f
    put_rom(rom, T_DICT_OFS + 6, Quad::vm_is_eq(FALSE, rom_ptr(T_DICT_OFS + 7)));  // --
    put_rom(rom, T_DICT_OFS + 7, Quad::vm_dict_get(rom_ptr(T_DICT_OFS + 8)));  // #?
    put_rom(rom, T_DICT_OFS + 8, Quad::vm_is_eq(UNDEF, rom_ptr(T_DICT_OFS + 9)));  // --
    put_rom(rom, T_DICT_OFS + 9, Quad::vm_push(NIL, rom_ptr(T_DICT_OFS + 10)));  // ()
    put_rom(rom, T_DICT_OFS + 10, Quad::vm_push(ZERO, rom_ptr(T_DICT_OFS + 11)));  // () 0
    put_rom(rom, T_DICT_OFS + 11, Quad::vm_push(UNIT, rom_ptr(T_DICT_OFS + 12)));  // () 0 #unit
    put_rom(rom, T_DICT_OFS + 12, Quad::vm_dict_set(rom_ptr(T_DICT_OFS + 13)));  // {0:#unit}
    put_rom(rom, T_DICT_OFS + 13, Quad::vm_pick(PLUS_1, rom_ptr(T_DICT_OFS + 14)));  // {0:#unit} {0:#unit}
    put_rom(rom, T_DICT_OFS + 14, Quad::vm_push(ZERO, rom_ptr(T_DICT_OFS + 15)));  // {0:#unit} {0:#unit} 0
    put_rom(rom, T_DICT_OFS + 15, Quad::vm_dict_get(rom_ptr(T_DICT_OFS + 16)));  // {0:#unit} #unit
    put_rom(rom, T_DICT_OFS + 16, Quad::vm_is_eq(UNIT, rom_ptr(T_DICT_OFS + 17)));  // {0:#unit}
    put_rom(rom, T_DICT_OFS + 17, Quad::vm_push(PLUS_1, rom_ptr(T_DICT_OFS + 18)));  // {0:#unit} 1
    put_rom(rom, T_DICT_OFS + 18, Quad::vm_push(MINUS_1, rom_ptr(T_DICT_OFS + 19)));  // {0:#unit} 1 -1
    put_rom(rom, T_DICT_OFS + 19, Quad::vm_dict_add(rom_ptr(T_DICT_OFS + 20)));  // {1:-1, 0:#unit}
    proof {
        assert(rom@.subrange(180, 200) =~= rom_part_9());
        assert forall|j: int| 0 <= j < 200 implies #[trigger] rom@[j] == boot_rom(j) by {
            if j >= 180 {
                assert(rom@[j] == rom@.subrange(180, 200)[j - 180]);
            } else {
                assert(rom@[j] == r0[j]);
            }
        }
        assert forall|j: int| 200 <= j < QUAD_ROM_MAX implies #[trigger] rom@[j] == mk(UNDEF, UNDEF, UNDEF, UNDEF) by {
            assert(rom@[j] == r0[j]);
        }
    }
}

fn rom_image_10(rom: &mut Vec<Quad>)
    requires
        old(rom)@.len() == QUAD_ROM_MAX,
        all_valid(old(rom)@),
        rom_reserved(old(rom)@),
        forall|j: int| 0 <= j < 200 ==> #[trigger] old(rom)@[j] == boot_rom(j),
        forall|j: int| 200 <= j < QUAD_ROM_MAX ==> #[trigger] old(rom)@[j] == mk(UNDEF, UNDEF, UNDEF, UNDEF),
    ensures
        final(rom)@.len() == QUAD_ROM_MAX,
        all_valid(final(rom)@),
        rom_reserved(final(rom)@),
        forall|j: int| 0 <= j < 220 ==> #[trigger] final(rom)@[j] == boot_rom(j),
        forall|j: int| 220 <= j < QUAD_ROM_MAX ==> #[trigger] final(rom)@[j] == mk(UNDEF, UNDEF, UNDEF, UNDEF),
{
    let ghost r0 = rom@;
    put_rom(rom, T_DICT_OFS + 20, Quad::vm_pick(PLUS_1, rom_ptr(T_DICT_OFS + 21)));  // {1:-1, 0:#unit} {1:-1, 0:#unit}
    put_rom(rom, T_DICT_OFS + 21, Quad::vm_push(ZERO, rom_ptr(T_DICT_OFS + 22)));  // {1:-1, 0:#unit} {1:-1, 0:#unit} 0
    put_rom(rom, T_DICT_OFS + 22, Quad::vm_dict_get(rom_ptr(T_DICT_OFS + 23)));  // {1:-1, 0:#unit} #unit
    put_rom(rom, T_DICT_OFS + 23, Quad::vm_is_eq(UNIT, rom_ptr(T_DICT_OFS + 24)));  // {1:-1, 0:#unit}
    put_rom(rom, T_DICT_OFS + 24, Quad::vm_push(ZERO, rom_ptr(T_DICT_OFS + 25)));  // {1:-1, 0:#unit} 0
    put_rom(rom, T_DICT_OFS + 25, Quad::vm_dict_del(rom_ptr(T_DICT_OFS + 26)));  // {1:-1}
    put_rom(rom, T_DICT_OFS + 26, Quad::vm_pick(PLUS_1, rom_ptr(T_DICT_OFS + 27)));  // {1:-1} {1:-1}
    put_rom(rom, T_DICT_OFS + 27, Quad::vm_push(ZERO, rom_ptr(T_DICT_OFS + 28)));  // {1:-1} {1:-1} 0
    put_rom(rom, T_DICT_OFS + 28, Quad::vm_dict_get(rom_ptr(T_DICT_OFS + 29)));  // {1:-1} #undef
    put_rom(rom, T_DICT_OFS + 29, Quad::vm_is_eq(UNDEF, rom_ptr(T_DICT_OFS + 30)));  // {1:-1}
    put_rom(rom, T_DICT_OFS + 30, Quad::vm_push(PLUS_1, rom_ptr(T_DICT_OFS + 31)));  // {1:-1} 1
    put_rom(rom, T_DICT_OFS + 31, Quad::vm_push(FALSE, rom_ptr(T_DICT_OFS + 32)));  // {1:-1} 1 #f
    put_rom(rom, T_DICT_OFS + 32, Quad::vm_dict_add(rom_ptr(T_DICT_OFS + 33)));  // {1:#f, 1:-1}
    put_rom(rom, T_DICT_OFS + 33, Quad::vm_pick(PLUS_1, rom_ptr(T_DICT_OFS + 34)));  // {1:#f, 1:-1} {1:#f, 1:-1}
    put_rom(rom, T_DICT_OFS + 34, Quad::vm_push(PLUS_1, rom_ptr(T_DICT_OFS + 35)));  // {1:#f, 1:-1} {1:#f, 1:-1} 1
    put_rom(rom, T_DICT_OFS + 35, Quad::vm_push(TRUE, rom_ptr(T_DICT_OFS + 36)));  // {1:#f, 1:-1} {1:#f, 1:-1} 1 #t
    put_rom(rom, T_DICT_OFS + 36, Quad::vm_dict_set(rom_ptr(T_DICT_OFS + 37)));  // {1:#f, 1:-1} {1:#t, 1:-1}
    put_rom(rom, T_DICT_OFS + 37, Quad::vm_pick(PLUS_1, rom_ptr(T_DICT_OFS + 38)));  // {1:#f, 1:-1} {1:#t, 1:-1} {1:#t, 1:-1}
    put_rom(rom, T_DICT_OFS + 38, Quad::vm_push(PLUS_1, rom_ptr(T_DICT_OFS + 39)));  // {1:#f, 1:-1} {1:#t, 1:-1} {1:#t, 1:-1} 1
    put_rom(rom, T_DICT_OFS + 39, Quad::vm_dict_del(rom_ptr(T_DICT_OFS + 40)));  // {1:#f, 1:-1} {1:#t, 1:-1} {1:-1}
    proof {
        assert(rom@.subrange(200, 220) =~= rom_part_10());
        assert forall|j: int| 0 <= j < 220 implies #[trigger] rom@[j] == boot_rom(j) by {
            if j >= 200 {
                assert(rom@[j] == rom@.subrange(200, 220)[j - 200]);
            } else {
                assert(rom@[j] == r0[j]);
            }
        }
        assert forall|j: int| 220 <= j < QUAD_ROM_MAX implies #[trigger] rom@[j] == mk(UNDEF, UNDEF, UNDEF, UNDEF) by {
            assert(rom@[j] == r0[j]);
        }
    }
}

fn rom_image_11(rom: &mut Vec<Quad>)
    requires
        old(rom)@.len() == QUAD_ROM_MAX,
        all_valid(old(rom)@),
        rom_reserved(old(rom)@),
        forall|j: int| 0 <= j < 220 ==> #[trigger] old(rom)@[j] == boot_rom(j),
        forall|j: int| 220 <= j < QUAD_ROM_MAX ==> #[trigger] old(rom)@[j] == mk(UNDEF, UNDEF, UNDEF, UNDEF),
    ensures
        final(rom)@.len() == QUAD_ROM_MAX,
        all_valid(final(rom)@),
        rom_reserved(final(rom)@),
        forall|j: int| 0 <= j < 240 ==> #[trigger] final(rom)@[j] == boot_rom(j),
        forall|j: int| 240 <= j < QUAD_ROM_MAX ==> #[trigger] final(rom)@[j] == mk(UNDEF, UNDEF, UNDEF, UNDEF),
{
    let ghost r0 = rom@;
    put_rom(rom, T_DICT_OFS + 40, Quad::vm_dup(PLUS_1, rom_ptr(T_DICT_OFS + 41)));  // {1:#f, 1:-1} {1:#t, 1:-1} {1:-1} {1:-1}
    put_rom(rom, T_DICT_OFS + 41, Quad::vm_push(PLUS_1, rom_ptr(T_DICT_OFS + 42)));  // {1:#f, 1:-1} {1:#t, 1:-1} {1:-1} {1:-1} 1
    put_rom(rom, T_DICT_OFS + 42, Quad::vm_dict_get(rom_ptr(T_DICT_OFS + 43)));  // {1:#f, 1:-1} {1:#t, 1:-1} {1:-1} -1
    put_rom(rom, T_DICT_OFS + 43, Quad::vm_is_eq(MINUS_1, COMMIT));  // {1:#f, 1:-1} {1:#t, 1:-1} {1:-1}
    put_rom(rom, T_DEQUE_OFS + 0, Quad::vm_deque_empty(rom_ptr(T_DEQUE_OFS + 1)));  // #t
    put_rom(rom, T_DEQUE_OFS + 1, Quad::vm_is_eq(TRUE, rom_ptr(T_DEQUE_OFS + 2)));  // --
    put_rom(rom, T_DEQUE_OFS + 2, Quad::vm_deque_new(rom_ptr(T_DEQUE_OFS + 3)));  // (())
    put_rom(rom, T_DEQUE_OFS + 3, Quad::vm_dup(PLUS_1, rom_ptr(T_DEQUE_OFS + 4)));  // (()) (())
    put_rom(rom, T_DEQUE_OFS + 4, Quad::vm_deque_empty(rom_ptr(T_DEQUE_OFS + 5)));  // (()) #t
    put_rom(rom, T_DEQUE_OFS + 5, Quad::vm_is_eq(TRUE, rom_ptr(T_DEQUE_OFS + 6)));  // (())
    put_rom(rom, T_DEQUE_OFS + 6, Quad::vm_push(PLUS_1, rom_ptr(T_DEQUE_OFS + 7)));  // (()) 1
    put_rom(rom, T_DEQUE_OFS + 7, Quad::vm_deque_push(rom_ptr(T_DEQUE_OFS + 8)));  // ((1))
    put_rom(rom, T_DEQUE_OFS + 8, Quad::vm_push(PLUS_2, rom_ptr(T_DEQUE_OFS + 9)));  // ((1)) 2
    put_rom(rom, T_DEQUE_OFS + 9, Quad::vm_deque_push(rom_ptr(T_DEQUE_OFS + 10)));  // ((2 1))
    put_rom(rom, T_DEQUE_OFS + 10, Quad::vm_push(PLUS_3, rom_ptr(T_DEQUE_OFS + 11)));  // ((2 1)) 3
    put_rom(rom, T_DEQUE_OFS + 11, Quad::vm_deque_push(rom_ptr(T_DEQUE_OFS + 12)));  // ((3 2 1))
    put_rom(rom, T_DEQUE_OFS + 12, Quad::vm_pick(PLUS_1, rom_ptr(T_DEQUE_OFS + 13)));  // ((3 2 1)) ((3 2 1))
    put_rom(rom, T_DEQUE_OFS + 13, Quad::vm_deque_empty(rom_ptr(T_DEQUE_OFS + 14)));  // ((3 2 1)) #f
    put_rom(rom, T_DEQUE_OFS + 14, Quad::vm_is_eq(FALSE, rom_ptr(T_DEQUE_OFS + 15)));  // ((3 2 1))
    put_rom(rom, T_DEQUE_OFS + 15, Quad::vm_pick(PLUS_1, rom_ptr(T_DEQUE_OFS + 16)));  // ((3 2 1)) ((3 2 1))
    proof {
        assert(rom@.subrange(220, 240) =~= rom_part_11());
        assert forall|j: int| 0 <= j < 240 implies #[trigger] rom@[j] == boot_rom(j) by {
            if j >= 220 {
                assert(rom@[j] == rom@.subrange(220, 240)[j - 220]);
            } else {
                assert(rom@[j] == r0[j]);
            }
        }
        assert forall|j: int| 240 <= j < QUAD_ROM_MAX implies #[trigger] rom@[j] == mk(UNDEF, UNDEF, UNDEF, UNDEF) by {
            assert(rom@[j] == r0[j]);
        }
    }
}

fn rom_image_12(rom: &mut Vec<Quad>)
    requires
        old(rom)@.len() == QUAD_ROM_MAX,
        all_valid(old(rom)@),
        rom_reserved(old(rom)@),
        forall|j: int| 0 <= j < 240 ==> #[trigger] old(rom)@[j] == boot_rom(j),
        forall|j: int| 240 <= j < QUAD_ROM_MAX ==> #[trigger] old(rom)@[j] == mk(UNDEF, UNDEF, UNDEF, UNDEF),
    ensures
        final(rom)@.len() == QUAD_ROM_MAX,
        all_valid(final(rom)@),
        rom_reserved(final(rom)@),
        forall|j: int| 0 <= j < 260 ==> #[trigger] final(rom)@[j] == boot_rom(j),
        forall|j: int| 260 <= j < QUAD_ROM_MAX ==> #[trigger] final(rom)@[j] == mk(UNDEF, UNDEF, UNDEF, UNDEF),
{
    let ghost r0 = rom@;
    put_rom(rom, T_DEQUE_OFS + 16, Quad::vm_deque_len(rom_ptr(T_DEQUE_OFS + 17)));  // ((3 2 1)) 3
    put_rom(rom, T_DEQUE_OFS + 17, Quad::vm_is_eq(PLUS_3, rom_ptr(T_DEQUE_OFS + 18)));  // ((3 2 1))
    put_rom(rom, T_DEQUE_OFS + 18, Quad::vm_deque_pull(rom_ptr(T_DEQUE_OFS + 19)));  // (() 2 3) 1
    put_rom(rom, T_DEQUE_OFS + 19, Quad::vm_is_eq(PLUS_1, rom_ptr(T_DEQUE_OFS + 20)));  // (() 2 3)
    put_rom(rom, T_DEQUE_OFS + 20, Quad::vm_deque_pull(rom_ptr(T_DEQUE_OFS + 21)));  // (() 3) 2
    put_rom(rom, T_DEQUE_OFS + 21, Quad::vm_is_eq(PLUS_2, rom_ptr(T_DEQUE_OFS + 22)));  // (() 3) 2
    put_rom(rom, T_DEQUE_OFS + 22, Quad::vm_deque_pull(rom_ptr(T_DEQUE_OFS + 23)));  // (()) 3
    put_rom(rom, T_DEQUE_OFS + 23, Quad::vm_is_eq(PLUS_3, rom_ptr(T_DEQUE_OFS + 24)));  // (())
    put_rom(rom, T_DEQUE_OFS + 24, Quad::vm_deque_pull(rom_ptr(T_DEQUE_OFS + 25)));  // (()) #?
    put_rom(rom, T_DEQUE_OFS + 25, Quad::vm_is_eq(UNDEF, rom_ptr(T_DEQUE_OFS + 26)));  // (())
    put_rom(rom, T_DEQUE_OFS + 26, Quad::vm_dup(PLUS_1, rom_ptr(T_DEQUE_OFS + 27)));  // (()) (())
    put_rom(rom, T_DEQUE_OFS + 27, Quad::vm_deque_len(rom_ptr(T_DEQUE_OFS + 28)));  // (()) 0
    put_rom(rom, T_DEQUE_OFS + 28, Quad::vm_is_eq(ZERO, rom_ptr(T_DEQUE_OFS + 29)));  // (())
    put_rom(rom, T_DEQUE_OFS + 29, Quad::vm_dup(PLUS_1, rom_ptr(T_DEQUE_OFS + 30)));  // (()) (())
    put_rom(rom, T_DEQUE_OFS + 30, Quad::vm_msg(ZERO, rom_ptr(T_DEQUE_OFS + 31)));  // (()) (()) (@4 #unit)
    put_rom(rom, T_DEQUE_OFS + 31, Quad::vm_deque_put(rom_ptr(T_DEQUE_OFS + 32)));  // (()) (() (@4 #unit))
    put_rom(rom, T_DEQUE_OFS + 32, Quad::vm_msg(MINUS_1, rom_ptr(T_DEQUE_OFS + 33)));  // (()) (() (@4 #unit)) (#unit)
    put_rom(rom, T_DEQUE_OFS + 33, Quad::vm_deque_put(rom_ptr(T_DEQUE_OFS + 34)));  // (()) (() (#unit) (@4 #unit))
    put_rom(rom, T_DEQUE_OFS + 34, Quad::vm_msg(MINUS_2, rom_ptr(T_DEQUE_OFS + 35)));  // (()) (() (#unit) (@4 #unit)) ()
    put_rom(rom, T_DEQUE_OFS + 35, Quad::vm_deque_put(rom_ptr(T_DEQUE_OFS + 36)));  // (()) (() () (#unit) (@4 #unit))
    proof {
        assert(rom@.subrange(240, 260) =~= rom_part_12());
        assert forall|j: int| 0 <= j < 260 implies #[trigger] rom@[j] == boot_rom(j) by {
            if j >= 240 {
                assert(rom@[j] == rom@.subrange(240, 260)[j - 240]);
            } else {
                assert(rom@[j] == r0[j]);
            }
        }
        assert forall|j: int| 260 <= j < QUAD_ROM_MAX implies #[trigger] rom@[j] == mk(UNDEF, UNDEF, UNDEF, UNDEF) by {
            assert(rom@[j] == r0[j]);
        }
    }
}

fn rom_image_13(rom: &mut Vec<Quad>)
    requires
        old(rom)@.len() == QUAD_ROM_MAX,
        all_valid(old(rom)@),
        rom_reserved(old(rom)@),
        forall|j: int| 0 <= j < 260 ==> #[trigger] old(rom)@[j] == boot_rom(j),
        forall|j: int| 260 <= j < QUAD_ROM_MAX ==> #[trigger] old(rom)@[j] == mk(UNDEF, UNDEF, UNDEF, UNDEF),
    ensures
        final(rom)@.len() == QUAD_ROM_MAX,
        all_valid(final(rom)@),
        rom_reserved(final(rom)@),
        forall|j: int| 0 <= j < 280 ==> #[trigger] final(rom)@[j] == boot_rom(j),
        forall|j: int| 280 <= j < QUAD_ROM_MAX ==> #[trigger] final(rom)@[j] == mk(UNDEF, UNDEF, UNDEF, UNDEF),
{
    let ghost r0 = rom@;
    put_rom(rom, T_DEQUE_OFS + 36, Quad::vm_deque_pop(rom_ptr(T_DEQUE_OFS + 37)));  // (()) (((#unit) ())) (@4 #unit)
    put_rom(rom, T_DEQUE_OFS + 37, Quad::vm_roll(MINUS_2, rom_ptr(T_DEQUE_OFS + 38)));  // (()) (@4 #unit) (((#unit) ()))
    put_rom(rom, T_DEQUE_OFS + 38, Quad::vm_deque_pop(rom_ptr(T_DEQUE_OFS + 39)));  // (()) (@4 #unit) ((())) (#unit)
    put_rom(rom, T_DEQUE_OFS + 39, Quad::vm_roll(MINUS_3, rom_ptr(T_DEQUE_OFS + 40)));  // (()) (#unit) (@4 #unit) ((()))
    put_rom(rom, T_DEQUE_OFS + 40, Quad::vm_deque_pop(rom_ptr(T_DEQUE_OFS + 41)));  // (()) (#unit) (@4 #unit) (()) ()
    put_rom(rom, T_DEQUE_OFS + 41, Quad::vm_is_eq(NIL, rom_ptr(T_DEQUE_OFS + 42)));  // (()) (#unit) (@4 #unit) (())
    put_rom(rom, T_DEQUE_OFS + 42, Quad::vm_push(PLUS_1, rom_ptr(T_DEQUE_OFS + 43)));  // (()) (#unit) (@4 #unit) (()) 1
    put_rom(rom, T_DEQUE_OFS + 43, Quad::vm_deque_put(rom_ptr(T_DEQUE_OFS + 44)));  // (()) (#unit) (@4 #unit) (() 1)
    put_rom(rom, T_DEQUE_OFS + 44, Quad::vm_push(PLUS_2, rom_ptr(T_DEQUE_OFS + 45)));  // (()) (#unit) (@4 #unit) (() 1) 2
    put_rom(rom, T_DEQUE_OFS + 45, Quad::vm_deque_put(rom_ptr(T_DEQUE_OFS + 46)));  // (()) (#unit) (@4 #unit) (() 2 1)
    put_rom(rom, T_DEQUE_OFS + 46, Quad::vm_dup(PLUS_1, rom_ptr(T_DEQUE_OFS + 47)));  // (()) (#unit) (@4 #unit) (() 2 1) (() 2 1)
    put_rom(rom, T_DEQUE_OFS + 47, Quad::vm_deque_empty(rom_ptr(T_DEQUE_OFS + 48)));  // (()) (#unit) (@4 #unit) (() 2 1) #f
    put_rom(rom, T_DEQUE_OFS + 48, Quad::vm_is_eq(FALSE, rom_ptr(T_DEQUE_OFS + 49)));  // (()) (#unit) (@4 #unit) (() 2 1)
    put_rom(rom, T_DEQUE_OFS + 49, Quad::vm_deque_pop(rom_ptr(T_DEQUE_OFS + 50)));  // (()) (#unit) (@4 #unit) ((2)) 1
    put_rom(rom, T_DEQUE_OFS + 50, Quad::vm_is_eq(PLUS_1, rom_ptr(T_DEQUE_OFS + 51)));  // (()) (#unit) (@4 #unit) ((2))
    put_rom(rom, T_DEQUE_OFS + 51, Quad::vm_push(PLUS_3, rom_ptr(T_DEQUE_OFS + 52)));  // (()) (#unit) (@4 #unit) ((2)) 3
    put_rom(rom, T_DEQUE_OFS + 52, Quad::vm_deque_put(rom_ptr(T_DEQUE_OFS + 53)));  // (()) (#unit) (@4 #unit) ((2) 3)
    put_rom(rom, T_DEQUE_OFS + 53, Quad::vm_dup(PLUS_1, rom_ptr(T_DEQUE_OFS + 54)));  // (()) (#unit) (@4 #unit) ((2) 3) ((2) 3)
    put_rom(rom, T_DEQUE_OFS + 54, Quad::vm_deque_len(rom_ptr(T_DEQUE_OFS + 55)));  // (()) (#unit) (@4 #unit) ((2) 3) 2
    put_rom(rom, T_DEQUE_OFS + 55, Quad::vm_is_eq(PLUS_2, rom_ptr(T_DEQUE_OFS + 56)));  // (()) (#unit) (@4 #unit) ((2) 3)
    proof {
        assert(rom@.subrange(260, 280) =~= rom_part_13());
        assert forall|j: int| 0 <= j < 280 implies #[trigger] rom@[j] == boot_rom(j) by {
            if j >= 260 {
                assert(rom@[j] == rom@.subrange(260, 280)[j - 260]);
            } else {
                assert(rom@[j] == r0[j]);
            }
        }
        assert forall|j: int| 280 <= j < QUAD_ROM_MAX implies #[trigger] rom@[j] == mk(UNDEF, UNDEF, UNDEF, UNDEF) by {
            assert(rom@[j] == r0[j]);
        }
    }
}

fn rom_image_14(rom: &mut Vec<Quad>)
    requires
        old(rom)@.len() == QUAD_ROM_MAX,
        all_valid(old(rom)@),
        rom_reserved(old(rom)@),
        forall|j: int| 0 <= j < 280 ==> #[trigger] old(rom)@[j] == boot_rom(j),
        forall|j: int| 280 <= j < QUAD_ROM_MAX ==> #[trigger] old(rom)@[j] == mk(UNDEF, UNDEF, UNDEF, UNDEF),
    ensures
        final(rom)@.len() == QUAD_ROM_MAX,
        all_valid(final(rom)@),
        rom_reserved(final(rom)@),
        forall|j: int| 0 <= j < 300 ==> #[trigger] final(rom)@[j] == boot_rom(j),
        forall|j: int| 300 <= j < QUAD_ROM_MAX ==> #[trigger] final(rom)@[j] == mk(UNDEF, UNDEF, UNDEF, UNDEF),
{
    let ghost r0 = rom@;
    put_rom(rom, T_DEQUE_OFS + 56, Quad::vm_deque_pop(rom_ptr(T_DEQUE_OFS + 57)));  // (()) (#unit) (@4 #unit) (() 3) 2
    put_rom(rom, T_DEQUE_OFS + 57, Quad::vm_is_eq(PLUS_2, rom_ptr(T_DEQUE_OFS + 58)));  // (()) (#unit) (@4 #unit) (() 3)
    put_rom(rom, T_DEQUE_OFS + 58, Quad::vm_deque_pop(rom_ptr(T_DEQUE_OFS + 59)));  // (()) (#unit) (@4 #unit) (()) 3
    put_rom(rom, T_DEQUE_OFS + 59, Quad::vm_is_eq(PLUS_3, rom_ptr(T_DEQUE_OFS + 60)));  // (()) (#unit) (@4 #unit) (())
    put_rom(rom, T_DEQUE_OFS + 60, Quad::vm_deque_pop(rom_ptr(T_DEQUE_OFS + 61)));  // (()) (#unit) (@4 #unit) (()) #?
    put_rom(rom, T_DEQUE_OFS + 61, Quad::vm_is_eq(UNDEF, rom_ptr(T_DEQUE_OFS + 62)));  // (()) (#unit) (@4 #unit) (())
    put_rom(rom, T_DEQUE_OFS + 62, Quad::vm_dup(PLUS_1, rom_ptr(T_DEQUE_OFS + 63)));  // (()) (#unit) (@4 #unit) (()) (())
    put_rom(rom, T_DEQUE_OFS + 63, Quad::vm_deque_len(rom_ptr(T_DEQUE_OFS + 64)));  // (()) (#unit) (@4 #unit) (()) 0
    put_rom(rom, T_DEQUE_OFS + 64, Quad::vm_is_eq(ZERO, COMMIT));  // (()) (#unit) (@4 #unit) (())
    put_rom(rom, T_DEV_OFS + 0, Quad::vm_push(fix(13), rom_ptr(T_DEV_OFS + 1)));  // 13
    put_rom(rom, T_DEV_OFS + 1, Quad::vm_push(IO_DEV, rom_ptr(T_DEV_OFS + 2)));  // 13 io_device
    put_rom(rom, T_DEV_OFS + 2, Quad::vm_push(BLOB_DEV, rom_ptr(T_DEV_OFS + 3)));  // 13 io_device blob_device
    put_rom(rom, T_DEV_OFS + 3, Quad::vm_send(PLUS_2, rom_ptr(T_DEV_OFS + 4)));  // --
    put_rom(rom, T_DEV_OFS + 4, Quad::vm_push(fix(3), rom_ptr(T_DEV_OFS + 5)));  // 3
    put_rom(rom, T_DEV_OFS + 5, Quad::vm_push(IO_DEV, rom_ptr(T_DEV_OFS + 6)));  // 3 io_device
    put_rom(rom, T_DEV_OFS + 6, Quad::vm_push(BLOB_DEV, rom_ptr(T_DEV_OFS + 7)));  // 3 io_device blob_device
    put_rom(rom, T_DEV_OFS + 7, Quad::vm_send(PLUS_2, rom_ptr(T_DEV_OFS + 8)));  // --
    put_rom(rom, T_DEV_OFS + 8, Quad::vm_drop(ZERO, rom_ptr(T_DEV_OFS + 12)));  // --
    put_rom(rom, T_DEV_OFS + 9, Quad::vm_push(IO_DEV, rom_ptr(T_DEV_OFS + 10)));  // io_device
    put_rom(rom, T_DEV_OFS + 10, Quad::vm_push(CLOCK_DEV, rom_ptr(T_DEV_OFS + 11)));  // io_device clock_device
    proof {
        assert(rom@.subrange(280, 300) =~= rom_part_14());
        assert forall|j: int| 0 <= j < 300 implies #[trigger] rom@[j] == boot_rom(j) by {
            if j >= 280 {
                assert(rom@[j] == rom@.subrange(280, 300)[j - 280]);
            } else {
                assert(rom@[j] == r0[j]);
            }
        }
        assert forall|j: int| 300 <= j < QUAD_ROM_MAX implies #[trigger] rom@[j] == mk(UNDEF, UNDEF, UNDEF, UNDEF) by {
            assert(rom@[j] == r0[j]);
        }
    }
}

fn rom_image_15(rom: &mut Vec<Quad>)
    requires
        old(rom)@.len() == QUAD_ROM_MAX,
        all_valid(old(rom)@),
        rom_reserved(old(rom)@),
        forall|j: int| 0 <= j < 300 ==> #[trigger] old(rom)@[j] == boot_rom(j),
        forall|j: int| 300 <= j < QUAD_ROM_MAX ==> #[trigger] old(rom)@[j] == mk(UNDEF, UNDEF, UNDEF, UNDEF),
    ensures
        final(rom)@.len() == QUAD_ROM_MAX,
        all_valid(final(rom)@),
        rom_reserved(final(rom)@),
        forall|j: int| 0 <= j < 313 ==> #[trigger] final(rom)@[j] == boot_rom(j),
        forall|j: int| 313 <= j < QUAD_ROM_MAX ==> #[trigger] final(rom)@[j] == mk(UNDEF, UNDEF, UNDEF, UNDEF),
{
    let ghost r0 = rom@;
    put_rom(rom, T_DEV_OFS + 11, Quad::vm_send(ZERO, rom_ptr(T_DEV_OFS + 12)));  // --
    put_rom(rom, T_DEV_OFS + 12, Quad::vm_push(PLUS_5, rom_ptr(T_DEV_OFS + 13)));  // 5
    put_rom(rom, T_DEV_OFS + 13, Quad::vm_push(_COUNT_BEH, rom_ptr(T_DEV_OFS + 14)));  // 5 count-beh
    put_rom(rom, T_DEV_OFS + 14, Quad::vm_new(ZERO, rom_ptr(T_DEV_OFS + 15)));  // 5 a-count
    put_rom(rom, T_DEV_OFS + 15, Quad::vm_send(ZERO, COMMIT));  // --
    put_rom(rom, COUNT_OFS + 0, Quad::vm_msg(ZERO, rom_ptr(COUNT_OFS + 1)));  // n
    put_rom(rom, COUNT_OFS + 1, Quad::vm_dup(PLUS_1, rom_ptr(COUNT_OFS + 2)));  // n n
    put_rom(rom, COUNT_OFS + 2, Quad::vm_eq(ZERO, rom_ptr(COUNT_OFS + 3)));  // n n==0
    put_rom(rom, COUNT_OFS + 3, Quad::vm_if(ABORT, rom_ptr(COUNT_OFS + 4)));  // n
    put_rom(rom, COUNT_OFS + 4, Quad::vm_push(PLUS_1, rom_ptr(COUNT_OFS + 5)));  // n 1
    put_rom(rom, COUNT_OFS + 5, Quad::vm_alu_sub(rom_ptr(COUNT_OFS + 6)));  // n-1
    put_rom(rom, COUNT_OFS + 6, Quad::vm_my_self(rom_ptr(COUNT_OFS + 7)));  // n-1 self
    put_rom(rom, COUNT_OFS + 7, Quad::vm_send(ZERO, COMMIT));  // --
    proof {
        assert(rom@.subrange(300, 313) =~= rom_part_15());
        assert forall|j: int| 0 <= j < 313 implies #[trigger] rom@[j] == boot_rom(j) by {
            if j >= 300 {
                assert(rom@[j] == rom@.subrange(300, 313)[j - 300]);
            } else {
                assert(rom@[j] == r0[j]);
            }
        }
        assert forall|j: int| 313 <= j < QUAD_ROM_MAX implies #[trigger] rom@[j] == mk(UNDEF, UNDEF, UNDEF, UNDEF) by {
            assert(rom@[j] == r0[j]);
        }
    }
}

fn rom_image() -> (rom: Vec<Quad>)
    ensures
        rom@.len() == QUAD_ROM_MAX,
        all_valid(rom@),
        rom_reserved(rom@),
        forall|j: int| 0 <= j < QUAD_ROM_MAX ==> #[trigger] rom@[j] == boot_rom(j),
{
    let mut rom = empty_cells(QUAD_ROM_MAX);
    rom_image_0(&mut rom);
    rom_image_1(&mut rom);
    rom_image_2(&mut rom);
    rom_image_3(&mut rom);
    rom_image_4(&mut rom);
    rom_image_5(&mut rom);
    rom_image_6(&mut rom);
    rom_image_7(&mut rom);
    rom_image_8(&mut rom);
    rom_image_9(&mut rom);
    rom_image_10(&mut rom);
    rom_image_11(&mut rom);
    rom_image_12(&mut rom);
    rom_image_13(&mut rom);
    rom_image_14(&mut rom);
    rom_image_15(&mut rom);
    proof {
        assert forall|j: int| 0 <= j < QUAD_ROM_MAX implies #[trigger] rom@[j] == boot_rom(j) by {
            if j >= _ROM_TOP_OFS {
                assert(rom@[j] == mk(UNDEF, UNDEF, UNDEF, UNDEF));
            }
        }
    }
    rom
}

fn ram_image() -> (ram: Vec<Quad>)
    ensures
        ram@.len() == QUAD_RAM_MAX,
        forall|j: int| 0 <= j < QUAD_RAM_MAX ==> #[trigger] ram@[j] == boot_ram(j),
{
    let mut ram = empty_cells(QUAD_RAM_MAX);
    ram.set(0, Quad::memory_t(0x4000_0011, NIL, ZERO, 0x4000_0001));
    ram.set(1, Quad::ddeque_t(NIL, NIL, NIL, NIL));
    ram.set(2, Quad::actor_t(ZERO, NIL, UNDEF));
    ram.set(3, Quad::actor_t(PLUS_1, NIL, UNDEF));
    ram.set(4, Quad::actor_t(PLUS_2, NIL, UNDEF));
    ram.set(5, Quad::sponsor_t(fix(512), fix(64), fix(512)));
    ram.set(BOOT_OFS + 0, Quad::new_actor(SINK_BEH, NIL));
    ram.set(BOOT_OFS + 1, Quad::vm_push(UNIT, 0x4000_0008));
    ram.set(BOOT_OFS + 2, Quad::vm_my_self(0x4000_0009));
    ram.set(BOOT_OFS + 3, Quad::vm_push(_T_DICT_BEH, 0x4000_000A));
    ram.set(BOOT_OFS + 4, Quad::vm_new(ZERO, 0x4000_000B));
    ram.set(BOOT_OFS + 5, Quad::vm_send(PLUS_2, COMMIT));
    ram.set(BOOT_OFS + 6, Quad::pair_t(PLUS_1, 0x4000_000D));
    ram.set(BOOT_OFS + 7, Quad::pair_t(PLUS_2, 0x4000_000E));
    ram.set(BOOT_OFS + 8, Quad::pair_t(PLUS_3, NIL));
    ram.set(BOOT_OFS + 9, Quad::new_event(SPONSOR, A_BOOT, NIL));
    ram.set(BOOT_OFS + 10, Quad::new_cont(_T_DEV_BEH, NIL, E_BOOT));
    proof {
        assert forall|j: int| 0 <= j < QUAD_RAM_MAX implies #[trigger] ram@[j] == boot_ram(j) by {
            if j >= 17 {
                assert(ram@[j] == mk(UNDEF, UNDEF, UNDEF, UNDEF));
            }
        }
    }
    ram
}

fn blob_image() -> (blob: Vec<u8>)
    ensures
        blob@.len() == BLOB_RAM_MAX,
        forall|j: int| 0 <= j < BLOB_RAM_MAX ==> #[trigger] blob@[j] == boot_blob(j),
{
    let mut blob: Vec<u8> = Vec::new();
    let mut i: usize = 0;
    while i < BLOB_RAM_MAX
        invariant
            i <= BLOB_RAM_MAX,
            blob@.len() == i,
            forall|j: int| 0 <= j < i ==> #[trigger] blob@[j] == 0x8Fu8,
        decreases BLOB_RAM_MAX - i,
    {
        blob.push(0x8F);
        i += 1;
    }
    let mut n: usize = BLOB_RAM_MAX;
    n -= 9;
    blob.set(0, 0x88);
    blob.set(1, 0x82);
    blob.set(2, 16);
    blob.set(3, 1);
    blob.set(4, 0);
    blob.set(5, 0x82);
    blob.set(6, 16);
    blob.set(7, u16_lsb(n));
    blob.set(8, u16_msb(n));
    n -= 9;
    blob.set(9, 0x8B);
    blob.set(10, 0x82);
    blob.set(11, 16);
    blob.set(12, 0);
    blob.set(13, 0);
    blob.set(14, 0x82);
    blob.set(15, 16);
    blob.set(16, u16_lsb(n));
    blob.set(17, u16_msb(n));
    proof {
        assert forall|j: int| 0 <= j < BLOB_RAM_MAX implies #[trigger] blob@[j] == boot_blob(j) by {
            if j >= 18 {
                assert(blob@[j] == 0x8Fu8);
            }
        }
    }
    blob
}

impl Core {
    /// A core holding the boot image: the ROM library, RAM bank 0 with the
    /// memory descriptor, empty queues, the device actors, the root sponsor
    /// and the boot actor, an empty RAM bank 1, and the blob RAM header.
    pub fn new() -> (core: Core)
        ensures
            core@.wf(),
            forall|j: int| 0 <= j < QUAD_ROM_MAX ==> #[trigger] core@.rom[j] == boot_rom(j),
            forall|j: int| 0 <= j < QUAD_RAM_MAX ==> #[trigger] core@.ram0[j] == boot_ram(j),
            forall|j: int| 0 <= j < QUAD_RAM_MAX ==> #[trigger] core@.ram1[j] == mk(
                UNDEF,
                UNDEF,
                UNDEF,
                UNDEF,
            ),
            forall|j: int| 0 <= j < BLOB_RAM_MAX ==> #[trigger] core@.blob[j] == boot_blob(j),
            core@.rom_top == _ROM_TOP_OFS,
            core@.phase() == BNK_0,
    {
        let quad_rom = rom_image();
        let quad_ram0 = ram_image();
        let quad_ram1 = empty_cells(QUAD_RAM_MAX);
        let blob_ram = blob_image();
        let core = Core::from_parts(quad_rom, quad_ram0, quad_ram1, blob_ram, rom_ptr(_ROM_TOP_OFS));
        proof {
            assert(core@.ram0[0] == boot_ram(0));
            assert forall|j: int| 1 <= j < QUAD_RAM_MAX implies valid_quad(#[trigger] core@.ram0[j]) by {
                assert(core@.ram0[j] == boot_ram(j));
            }
            assert forall|j: int| 1 <= j < QUAD_RAM_MAX implies valid_quad(#[trigger] core@.ram1[j]) by {
                assert(core@.ram1[j] == mk(UNDEF, UNDEF, UNDEF, UNDEF));
            }
            assert(core@.ram1[0] == mk(UNDEF, UNDEF, UNDEF, UNDEF));
            assert forall|j: int| 0 <= j < QUAD_ROM_MAX implies valid_quad(#[trigger] core@.rom[j]) by {
                assert(all_valid(core@.rom));
            }
        }
        core
    }
}

} // verus!
