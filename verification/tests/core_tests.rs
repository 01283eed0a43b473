use ufork::cpu::Core;
use ufork::image::SPONSOR;
use ufork::interp::Run;
use ufork::quad::Quad;
use ufork::value::{
    is_ptr, ofs, Any, Error, Num, Raw, BNK_0, BNK_1, NIL, PLUS_1, PLUS_2, PLUS_3, PLUS_4, UNDEF,
    ZERO,
};

#[test]
fn base_types_are_32_bits() {
    assert_eq!(4, ::core::mem::size_of::<Error>());
    assert_eq!(4, ::core::mem::size_of::<Raw>());
    assert_eq!(4, ::core::mem::size_of::<Num>());
    assert_eq!(4, ::core::mem::size_of::<Any>());
    assert_eq!(16, ::core::mem::size_of::<Quad>());
}

#[test]
fn core_initialization() {
    let core = Core::new();
    assert_eq!(ZERO, core.ram_free());
    assert_eq!(NIL, core.ram_next());
    assert_eq!(NIL, core.e_first());
    assert_eq!(NIL, core.k_first());
    assert_eq!(UNDEF, core.kp());
}

#[test]
fn basic_memory_allocation() {
    let mut core = Core::new();
    let top_before = ofs(core.ram_top());
    let m1 = core.reserve(&Quad::pair_t(PLUS_1, PLUS_1)).unwrap();
    assert!(is_ptr(m1));
    let m2 = core.reserve(&Quad::pair_t(PLUS_2, PLUS_2)).unwrap();
    let m3 = core.reserve(&Quad::pair_t(PLUS_3, PLUS_3)).unwrap();
    core.free(m2);
    core.free(m3);
    let _m4 = core.reserve(&Quad::pair_t(PLUS_4, PLUS_4)).unwrap();
    let top_after = ofs(core.ram_top());
    assert_eq!(3, top_after - top_before);
    assert_eq!(PLUS_1, core.ram_free());
}

#[test]
fn run_loop_terminates() {
    let mut core = Core::new();
    let _ep = core.ep();
    let boot_beh = core.reserve(&Quad::vm_end_commit()).unwrap();
    let boot_ptr = core.reserve(&Quad::new_actor(boot_beh, NIL)).unwrap();
    let a_boot = core.ptr_to_cap(boot_ptr);
    core.event_inject(SPONSOR, a_boot, UNDEF).unwrap();
    let ok = core.run_loop() == Run::Done(true);
    assert!(ok);
}

#[test]
fn gc_before_and_after_run() {
    let mut core = Core::new();
    assert_eq!(BNK_0, core.gc_phase());
    core.gc_stop_the_world().unwrap();
    assert_eq!(BNK_1, core.gc_phase());
    core.run_loop();
    let bank = core.gc_phase();
    core.gc_stop_the_world().unwrap();
    assert_ne!(bank, core.gc_phase());
}
