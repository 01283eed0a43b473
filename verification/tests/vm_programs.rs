use ufork::cpu::Core;
use ufork::image::{BLOB_DEV, IO_DEV, SPONSOR, _T_DICT_BEH, _T_DEQUE_BEH, _TEST_BEH, _T_DEV_BEH, A_BOOT};
use ufork::interp::Run;
use ufork::quad::Quad;
use ufork::value::{fix, is_cap, ofs, NIL, UNIT};

fn run_behavior(beh: u32, msg: u32) -> (Run, Core) {
    let mut core = Core::new();
    let ptr = core.reserve(&Quad::new_actor(beh, NIL)).unwrap();
    let cap = core.ptr_to_cap(ptr);
    core.event_inject(SPONSOR, cap, msg).unwrap();
    let r = core.run_loop();
    (r, core)
}

#[test]
fn dict_test_suite_passes() {
    let (r, _) = run_behavior(_T_DICT_BEH, UNIT);
    assert_eq!(Run::Done(true), r);
}

#[test]
fn deque_test_suite_passes() {
    let mut core = Core::new();
    let tail = core.reserve(&Quad::pair_t(UNIT, NIL)).unwrap();
    let msg = core.reserve(&Quad::pair_t(A_BOOT, tail)).unwrap();
    let ptr = core.reserve(&Quad::new_actor(_T_DEQUE_BEH, NIL)).unwrap();
    let cap = core.ptr_to_cap(ptr);
    core.event_inject(SPONSOR, cap, msg).unwrap();
    assert_eq!(Run::Done(true), core.run_loop());
}

#[test]
fn fib_of_six_is_eight() {
    let (r, _) = run_behavior(_TEST_BEH, UNIT);
    assert_eq!(Run::Done(true), r);
}

#[test]
fn device_test_hands_first_event_to_blob_device() {
    let (r, core) = run_behavior(_T_DEV_BEH, UNIT);
    match r {
        Run::Device(id, ep) => {
            assert_eq!(0, id);
            let event = core.mem(ep);
            // a collection may have moved the device to the other bank
            assert_eq!(ofs(BLOB_DEV), ofs(event.x));
            assert!(is_cap(event.x));
        }
        _ => panic!("expected a device event, got {:?}", r),
    }
}

#[test]
fn device_events_leave_the_queue_in_the_order_they_were_queued() {
    let (r, mut core) = run_behavior(_T_DEV_BEH, UNIT);
    let first = match r {
        Run::Device(0, ep) => ep,
        _ => panic!("expected an event for the blob device, got {:?}", r),
    };
    let msg = core.mem(first).y;
    assert_eq!(ofs(IO_DEV), ofs(core.car(msg)));
    let second = match core.run_loop() {
        Run::Device(0, ep) => ep,
        r => panic!("expected a second event for the blob device, got {:?}", r),
    };
    assert_ne!(first, second);
    let msg1 = core.mem(first).y;
    let msg2 = core.mem(second).y;
    let n1 = core.car(core.cdr(msg1));
    let n2 = core.car(core.cdr(msg2));
    // the second send was queued first
    assert_eq!((fix(3), fix(13)), (n1, n2));
}
