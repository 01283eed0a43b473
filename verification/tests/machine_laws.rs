use ufork::cpu::Core;
use ufork::image::{u16_lsb, u16_msb, SINK_BEH, SPONSOR};
use ufork::interp::{Dispatch, Run};
use ufork::quad::Quad;
use ufork::value::{
    bank, fix, is_cap, is_ptr, is_ram, ofs, Any, E_ASSERT, E_BOUNDS, E_CPU_LIM, E_FAIL, E_MEM_LIM, E_MSG_LIM,
    E_NOT_FIX, E_NOT_RAM, E_NO_MEM, EMPTY_DQ, FALSE, MINUS_1, NIL, PLUS_1, PLUS_2, PLUS_3,
    PLUS_4, TRUE, UNDEF, UNIT, ZERO,
};

type Step = Box<dyn Fn(Any) -> Quad>;

/// Build a program in RAM from its instructions (each given its
/// continuation), ending in `end`; returns its first instruction.
fn program(core: &mut Core, steps: Vec<Step>, end: Quad) -> Any {
    let mut k = core.reserve(&end).unwrap();
    for step in steps.iter().rev() {
        k = core.reserve(&step(k)).unwrap();
    }
    k
}

/// A core with an actor running `beh` on message `msg`, dispatched and ready
/// to execute its first instruction.
fn started(beh: Any, msg: Any) -> Core {
    let mut core = Core::new();
    let ptr = core.reserve(&Quad::new_actor(beh, NIL)).unwrap();
    let cap = core.ptr_to_cap(ptr);
    core.event_inject(SPONSOR, cap, msg).unwrap();
    assert_eq!(Ok(Dispatch::Started), core.dispatch_event());
    core
}

/// Run a program as the behavior of a fresh actor.
fn run_program(steps: Vec<Step>) -> Run {
    let mut core = Core::new();
    let beh = program(&mut core, steps, Quad::vm_end_commit());
    let ptr = core.reserve(&Quad::new_actor(beh, NIL)).unwrap();
    let cap = core.ptr_to_cap(ptr);
    core.event_inject(SPONSOR, cap, UNIT).unwrap();
    core.run_loop()
}

fn push(v: Any) -> Step {
    Box::new(move |k| Quad::vm_push(v, k))
}

fn is_eq(v: Any) -> Step {
    Box::new(move |k| Quad::vm_is_eq(v, k))
}

#[test]
fn u16_octets_recombine() {
    let n = 0x1234;
    assert_eq!(0x34, u16_lsb(n));
    assert_eq!(0x12, u16_msb(n));
    assert_eq!(n, u16_lsb(n) as usize + 256 * u16_msb(n) as usize);
}

#[test]
fn capability_round_trip() {
    let mut core = Core::new();
    let ptr = core.reserve(&Quad::new_actor(SINK_BEH, NIL)).unwrap();
    let cap = core.ptr_to_cap(ptr);
    assert!(is_cap(cap));
    assert!(!is_ptr(cap));
    assert_eq!(ptr, core.cap_to_ptr(cap));
    assert_eq!(core.mem(ptr), core.mem(core.cap_to_ptr(cap)));
}

#[test]
fn blob_reads_back_what_was_written() {
    let mut core = Core::new();
    assert_eq!(0x8F, core.blob_read(100));
    core.blob_write(100, 7);
    assert_eq!(7, core.blob_read(100));
    assert_eq!(0x8F, core.blob_read(101));
    assert_eq!(fix(256), core.blob_top());
}

#[test]
fn free_then_reserve_reuses_the_cell() {
    let mut core = Core::new();
    let _a = core.reserve(&Quad::pair_t(PLUS_1, NIL)).unwrap();
    let b = core.reserve(&Quad::pair_t(PLUS_2, NIL)).unwrap();
    let free_before = core.ram_free();
    let next_before = core.ram_next();
    let top_before = core.ram_top();
    core.free(b);
    assert_eq!(b, core.ram_next());
    assert_eq!(PLUS_1, core.ram_free());
    let c = core.reserve(&Quad::pair_t(PLUS_3, NIL)).unwrap();
    assert_eq!(b, c);
    assert_eq!(Quad::pair_t(PLUS_3, NIL), core.mem(c));
    assert_eq!(free_before, core.ram_free());
    assert_eq!(next_before, core.ram_next());
    assert_eq!(top_before, core.ram_top());
}

#[test]
fn reserve_runs_out_of_ram() {
    let mut core = Core::new();
    let mut n = 0;
    let err = loop {
        match core.reserve(&Quad::empty_t()) {
            Ok(_) => n += 1,
            Err(e) => break e,
        }
    };
    assert_eq!(E_NO_MEM, err);
    assert_eq!(256 - 17, n);
}

#[test]
fn reserve_rom_runs_out_of_rom() {
    let mut core = Core::new();
    let first = core.reserve_rom().unwrap();
    assert_eq!(313, first);
    assert_eq!(314, core.rom_top());
    let mut n = 1;
    while core.reserve_rom().is_ok() {
        n += 1;
    }
    assert_eq!(1024 - 313, n);
    assert_eq!(Err(E_NO_MEM), core.reserve_rom());
}

#[test]
fn cons_without_a_running_event_has_no_quota() {
    let mut core = Core::new();
    assert_eq!(Err(E_MEM_LIM), core.cons(PLUS_1, NIL));
}

#[test]
fn cons_builds_a_pair_and_charges_the_sponsor() {
    let mut core = started(SINK_BEH, UNIT);
    assert_eq!(fix(512), core.sponsor_memory(SPONSOR));
    let p = core.cons(PLUS_1, PLUS_2).unwrap();
    assert_eq!(PLUS_1, core.car(p));
    assert_eq!(PLUS_2, core.cdr(p));
    assert_eq!(fix(511), core.sponsor_memory(SPONSOR));
    assert_eq!(UNDEF, core.car(PLUS_1));
}

#[test]
fn cons_fails_when_the_memory_quota_is_spent() {
    let mut core = started(SINK_BEH, UNIT);
    core.set_sponsor_memory(SPONSOR, ZERO);
    assert_eq!(Err(E_MEM_LIM), core.cons(PLUS_1, PLUS_2));
}

#[test]
fn nth_selects_elements_and_tails() {
    let mut core = started(SINK_BEH, UNIT);
    let l3 = core.cons(PLUS_3, NIL).unwrap();
    let l2 = core.cons(PLUS_2, l3).unwrap();
    let l1 = core.cons(PLUS_1, l2).unwrap();
    assert_eq!(l1, core.nth(l1, ZERO));
    assert_eq!(PLUS_1, core.nth(l1, PLUS_1));
    assert_eq!(PLUS_3, core.nth(l1, PLUS_3));
    assert_eq!(UNDEF, core.nth(l1, PLUS_4));
    assert_eq!(l2, core.nth(l1, MINUS_1));
    assert_eq!(NIL, core.nth(l1, fix(-3)));
    assert_eq!(UNDEF, core.nth(l1, fix(-4)));
    assert_eq!(UNDEF, core.nth(l1, UNIT));
}

#[test]
fn dictionary_add_set_get_del() {
    let mut core = started(SINK_BEH, UNIT);
    let d1 = core.dict_add(NIL, ZERO, UNIT).unwrap();
    assert!(core.dict_has(d1, ZERO));
    assert_eq!(UNIT, core.dict_get(d1, ZERO));
    let d2 = core.dict_add(d1, PLUS_1, MINUS_1).unwrap();
    assert_eq!(MINUS_1, core.dict_get(d2, PLUS_1));
    assert_eq!(UNIT, core.dict_get(d2, ZERO));
    assert!(!core.dict_has(d2, PLUS_2));
    assert_eq!(UNDEF, core.dict_get(d2, PLUS_2));
    let d3 = core.dict_set(d2, ZERO, TRUE).unwrap();
    assert_eq!(TRUE, core.dict_get(d3, ZERO));
    assert_eq!(MINUS_1, core.dict_get(d3, PLUS_1));
    let d4 = core.dict_del(d3, ZERO).unwrap();
    assert!(!core.dict_has(d4, ZERO));
    assert_eq!(MINUS_1, core.dict_get(d4, PLUS_1));
    let d5 = core.dict_del(d4, PLUS_1).unwrap();
    assert_eq!(NIL, d5);
}

#[test]
fn deque_push_pop_put_pull() {
    let mut core = started(SINK_BEH, UNIT);
    let d0 = core.deque_new();
    assert_eq!(EMPTY_DQ, d0);
    assert!(core.deque_empty(d0));
    assert_eq!(0, core.deque_len(d0));
    let d1 = core.deque_push(d0, PLUS_1).unwrap();
    let (d2, x) = core.deque_pop(d1).unwrap();
    assert_eq!(PLUS_1, x);
    assert!(core.deque_empty(d2));
    let d3 = core.deque_put(d0, PLUS_2).unwrap();
    let (d4, y) = core.deque_pull(d3).unwrap();
    assert_eq!(PLUS_2, y);
    assert!(core.deque_empty(d4));
    let (d5, z) = core.deque_pop(d4).unwrap();
    assert_eq!(UNDEF, z);
    assert_eq!(d4, d5);
}

#[test]
fn deque_is_first_in_first_out() {
    let mut core = started(SINK_BEH, UNIT);
    let d = core.deque_put(EMPTY_DQ, PLUS_1).unwrap();
    let d = core.deque_put(d, PLUS_2).unwrap();
    let d = core.deque_put(d, PLUS_3).unwrap();
    assert_eq!(3, core.deque_len(d));
    assert!(!core.deque_empty(d));
    let (d, a) = core.deque_pop(d).unwrap();
    let (d, b) = core.deque_pop(d).unwrap();
    let (d, c) = core.deque_pop(d).unwrap();
    assert_eq!((PLUS_1, PLUS_2, PLUS_3), (a, b, c));
    assert!(core.deque_empty(d));
}

#[test]
fn injected_events_go_to_the_front() {
    let mut core = Core::new();
    let ptr = core.reserve(&Quad::new_actor(SINK_BEH, NIL)).unwrap();
    let cap = core.ptr_to_cap(ptr);
    assert!(!core.event_pending());
    core.event_inject(SPONSOR, cap, PLUS_1).unwrap();
    let e1 = core.e_first();
    assert_eq!(e1, core.e_last());
    core.event_inject(SPONSOR, cap, PLUS_2).unwrap();
    let e2 = core.e_first();
    assert_ne!(e1, e2);
    assert_eq!(e1, core.e_last());
    assert_eq!(Quad::new_event(SPONSOR, cap, PLUS_2).t, core.mem(e2).t);
    assert_eq!(PLUS_2, core.mem(e2).y);
    assert_eq!(e1, core.mem(e2).z);
    assert!(core.event_pending());
}

#[test]
fn dispatch_fails_when_the_event_quota_is_spent() {
    let mut core = Core::new();
    let ptr = core.reserve(&Quad::new_actor(SINK_BEH, NIL)).unwrap();
    let cap = core.ptr_to_cap(ptr);
    core.event_inject(SPONSOR, cap, UNIT).unwrap();
    core.set_sponsor_events(SPONSOR, ZERO);
    assert_eq!(Err(E_MSG_LIM), core.dispatch_event());
}

#[test]
fn execute_fails_when_the_instruction_quota_is_spent() {
    let mut core = started(SINK_BEH, UNIT);
    core.set_sponsor_instrs(SPONSOR, ZERO);
    assert_eq!(Err(E_CPU_LIM), core.execute_instruction());
}

#[test]
fn execute_without_continuation_does_nothing() {
    let mut core = Core::new();
    assert_eq!(Ok(false), core.execute_instruction());
    assert_eq!(Ok(Dispatch::Idle), core.dispatch_event());
    assert_eq!(Ok(false), core.actor_revert());
}

#[test]
fn pushed_value_is_popped_back() {
    assert_eq!(Run::Done(true), run_program(vec![push(PLUS_3), is_eq(PLUS_3)]));
    assert_eq!(Run::Done(false), run_program(vec![push(PLUS_3), is_eq(PLUS_4)]));
}

#[test]
fn alu_arithmetic_values() {
    let add: Step = Box::new(|k| Quad::vm_alu_add(k));
    let sub: Step = Box::new(|k| Quad::vm_alu_sub(k));
    let mul: Step = Box::new(|k| Quad::vm_alu_mul(k));
    let not: Step = Box::new(|k| Quad::vm_alu_not(k));
    assert_eq!(Run::Done(true), run_program(vec![push(PLUS_3), push(PLUS_4), add, is_eq(fix(7))]));
    assert_eq!(Run::Done(true), run_program(vec![push(PLUS_3), push(PLUS_4), sub, is_eq(MINUS_1)]));
    assert_eq!(Run::Done(true), run_program(vec![push(fix(-6)), push(PLUS_4), mul, is_eq(fix(-24))]));
    assert_eq!(Run::Done(true), run_program(vec![push(PLUS_3), not, is_eq(fix(-4))]));
    let add: Step = Box::new(|k| Quad::vm_alu_add(k));
    assert_eq!(
        Run::Done(true),
        run_program(vec![push(fix(0x3FFF_FFFF)), push(PLUS_1), add, is_eq(fix(-0x4000_0000))])
    );
    let add: Step = Box::new(|k| Quad::vm_alu_add(k));
    assert_eq!(Run::Done(true), run_program(vec![push(UNIT), push(PLUS_1), add, is_eq(UNDEF)]));
}

#[test]
fn comparisons_give_booleans() {
    let lt: Step = Box::new(|k| Quad::vm_cmp_lt(k));
    let ge: Step = Box::new(|k| Quad::vm_cmp_ge(k));
    let ne: Step = Box::new(|k| Quad::vm_cmp_ne(k));
    assert_eq!(Run::Done(true), run_program(vec![push(PLUS_1), push(PLUS_2), lt, is_eq(TRUE)]));
    assert_eq!(Run::Done(true), run_program(vec![push(PLUS_1), push(PLUS_2), ge, is_eq(FALSE)]));
    assert_eq!(Run::Done(true), run_program(vec![push(UNIT), push(NIL), ne, is_eq(TRUE)]));
}

#[test]
fn execute_reports_instruction_errors() {
    let mut core = Core::new();
    let beh = program(&mut core, vec![push(PLUS_3), is_eq(PLUS_4)], Quad::vm_end_commit());
    let ptr = core.reserve(&Quad::new_actor(beh, NIL)).unwrap();
    let cap = core.ptr_to_cap(ptr);
    core.event_inject(SPONSOR, cap, UNIT).unwrap();
    assert_eq!(Ok(Dispatch::Started), core.dispatch_event());
    assert_eq!(Ok(true), core.execute_instruction());
    assert_eq!(Err(E_ASSERT), core.execute_instruction());

    let mut core = Core::new();
    let nth: Step = Box::new(|k| Quad::vm_nth(fix(100), k));
    let beh = program(&mut core, vec![push(NIL), nth], Quad::vm_end_commit());
    let ptr = core.reserve(&Quad::new_actor(beh, NIL)).unwrap();
    let cap = core.ptr_to_cap(ptr);
    core.event_inject(SPONSOR, cap, UNIT).unwrap();
    core.dispatch_event().unwrap();
    assert_eq!(Ok(true), core.execute_instruction());
    assert_eq!(Err(E_BOUNDS), core.execute_instruction());

    let mut core = Core::new();
    let pair: Step = Box::new(|k| Quad::vm_pair(UNIT, k));
    let beh = program(&mut core, vec![pair], Quad::vm_end_commit());
    let ptr = core.reserve(&Quad::new_actor(beh, NIL)).unwrap();
    let cap = core.ptr_to_cap(ptr);
    core.event_inject(SPONSOR, cap, UNIT).unwrap();
    core.dispatch_event().unwrap();
    assert_eq!(Err(E_NOT_FIX), core.execute_instruction());

    let mut core = Core::new();
    let beh = program(&mut core, vec![], Quad::vm_end_stop());
    let ptr = core.reserve(&Quad::new_actor(beh, NIL)).unwrap();
    let cap = core.ptr_to_cap(ptr);
    core.event_inject(SPONSOR, cap, UNIT).unwrap();
    core.dispatch_event().unwrap();
    assert_eq!(Err(E_FAIL), core.execute_instruction());
}

#[test]
fn revert_puts_actor_and_event_back_as_before_dispatch() {
    let mut core = Core::new();
    let ptr = core.reserve(&Quad::new_actor(SINK_BEH, PLUS_2)).unwrap();
    let before = core.mem(ptr);
    let cap = core.ptr_to_cap(ptr);
    core.event_inject(SPONSOR, cap, PLUS_1).unwrap();
    let ep = core.e_first();
    let event = core.mem(ep);
    assert_eq!(Ok(Dispatch::Started), core.dispatch_event());
    assert!(!core.event_pending());
    assert_ne!(before, core.mem(ptr));
    assert_eq!(Ok(true), core.actor_revert());
    assert_eq!(UNDEF, core.kp());
    assert_eq!(before, core.mem(ptr));
    assert_eq!(ep, core.e_first());
    let back = core.mem(ep);
    assert_eq!((event.t, event.x, event.y), (back.t, back.x, back.y));
    assert!(!is_ram(back.z));
    // the event can be dispatched again
    assert_eq!(Ok(Dispatch::Started), core.dispatch_event());
    assert!(is_ram(core.kp()));
}

#[test]
fn revert_aborts_the_head_continuation_not_the_next() {
    let mut core = Core::new();
    let push2: Step = Box::new(|k| Quad::vm_push(PLUS_2, k));
    let beh = program(&mut core, vec![push2], Quad::vm_end_commit());
    let a = core.reserve(&Quad::new_actor(beh, NIL)).unwrap();
    let b = core.reserve(&Quad::new_actor(beh, NIL)).unwrap();
    let a_before = core.mem(a);
    let b_before = core.mem(b);
    let cap_a = core.ptr_to_cap(a);
    let cap_b = core.ptr_to_cap(b);
    core.event_inject(SPONSOR, cap_b, UNIT).unwrap();
    let e_b = core.e_first();
    core.event_inject(SPONSOR, cap_a, UNIT).unwrap();
    let e_a = core.e_first();
    assert_eq!(Ok(Dispatch::Started), core.dispatch_event());
    assert_eq!(Ok(Dispatch::Started), core.dispatch_event());
    let k_a = core.k_first();
    let k_b = core.mem(k_a).z;
    assert_eq!(e_a, core.mem(k_a).y);
    assert_eq!(e_b, core.mem(k_b).y);
    assert_eq!(Ok(true), core.actor_revert());
    assert_eq!(k_b, core.k_first());
    assert_eq!(a_before, core.mem(a));
    assert_eq!(NIL, core.mem(b).z);
    assert_ne!(b_before, core.mem(b));
    assert_eq!(e_a, core.e_first());
}

#[test]
fn collection_keeps_the_queues_and_flips_the_phase() {
    let mut core = Core::new();
    let ptr = core.reserve(&Quad::new_actor(SINK_BEH, NIL)).unwrap();
    let cap = core.ptr_to_cap(ptr);
    core.event_inject(SPONSOR, cap, PLUS_1).unwrap();
    let phase = core.gc_phase();
    core.gc_stop_the_world().unwrap();
    assert_ne!(phase, core.gc_phase());
    assert!(core.event_pending());
    let ep = core.e_first();
    assert_eq!(PLUS_1, core.mem(ep).y);
    assert_eq!(Run::Done(true), core.run_loop());
}

#[test]
fn roll_then_roll_back_restores_the_stack() {
    let roll3: Step = Box::new(|k| Quad::vm_roll(PLUS_3, k));
    let back3: Step = Box::new(|k| Quad::vm_roll(fix(-3), k));
    assert_eq!(
        Run::Done(true),
        run_program(vec![
            push(PLUS_1),
            push(PLUS_2),
            push(PLUS_3),
            roll3,
            back3,
            is_eq(PLUS_3),
            is_eq(PLUS_2),
            is_eq(PLUS_1),
        ])
    );
    let roll3: Step = Box::new(|k| Quad::vm_roll(PLUS_3, k));
    assert_eq!(
        Run::Done(true),
        run_program(vec![
            push(PLUS_1),
            push(PLUS_2),
            push(PLUS_3),
            roll3,
            is_eq(PLUS_1),
            is_eq(PLUS_3),
            is_eq(PLUS_2),
        ])
    );
}

#[test]
fn rom_holds_the_program_library() {
    let core = Core::new();
    let rom = core.rom_buffer();
    assert_eq!(Quad::literal_t(), rom[0]);
    assert_eq!(Quad::pair_t(NIL, NIL), rom[5]);
    assert_eq!(Quad::type_t(), rom[15]);
    assert_eq!(Quad::vm_end_commit(), rom[16]);
    assert_eq!(Quad::vm_send(ZERO, 16), rom[17]);
    assert_eq!(Quad::vm_push(UNDEF, 18), rom[20]);
    assert_eq!(Quad::vm_send(ZERO, 16), rom[312]);
    assert_eq!(Quad::empty_t(), rom[313]);
    assert_eq!(1024, rom.len());
}

#[test]
fn deleting_a_key_reveals_its_older_binding() {
    let mut core = started(SINK_BEH, UNIT);
    let d1 = core.dict_add(NIL, PLUS_1, UNIT).unwrap();
    let d2 = core.dict_add(d1, PLUS_2, TRUE).unwrap();
    let d3 = core.dict_add(d2, PLUS_1, FALSE).unwrap();
    assert_eq!(FALSE, core.dict_get(d3, PLUS_1));
    let d4 = core.dict_del(d3, PLUS_1).unwrap();
    assert_eq!(UNIT, core.dict_get(d4, PLUS_1));
    assert_eq!(TRUE, core.dict_get(d4, PLUS_2));
    assert_eq!(d2, d4);
    let d5 = core.dict_del(d3, PLUS_2).unwrap();
    assert_eq!(FALSE, core.dict_get(d5, PLUS_1));
    assert!(!core.dict_has(d5, PLUS_2));
    assert_ne!(d3, d5);
}

#[test]
fn collection_leaves_no_reference_into_the_old_half_space() {
    let mut core = Core::new();
    let ptr = core.reserve(&Quad::new_actor(SINK_BEH, NIL)).unwrap();
    let cap = core.ptr_to_cap(ptr);
    let l2 = core.reserve(&Quad::pair_t(PLUS_2, NIL)).unwrap();
    let l1 = core.reserve(&Quad::pair_t(PLUS_1, l2)).unwrap();
    core.event_inject(SPONSOR, cap, l1).unwrap();
    core.gc_stop_the_world().unwrap();
    let phase = core.gc_phase();
    let top = ofs(core.ram_top());
    let cells = core.ram_buffer(phase);
    for j in 0..top {
        let q = cells[j];
        for a in [q.t, q.x, q.y, q.z] {
            if is_ram(a) {
                assert_eq!(Some(phase), bank(a), "cell {} refers to {:#x}", j, a);
            }
        }
    }
    let ep = core.e_first();
    let msg = core.mem(ep).y;
    assert_eq!(PLUS_1, core.car(msg));
    assert_eq!(PLUS_2, core.car(core.cdr(msg)));
}

#[test]
fn aborted_transaction_restores_the_actor() {
    let mut core = Core::new();
    // push the new behavior, become it, then abort
    let beh = program(
        &mut core,
        vec![push(16), Box::new(|k| Quad::vm_beh(ZERO, k)), push(UNIT)],
        Quad::vm_end_abort(),
    );
    let ptr = core.reserve(&Quad::new_actor(beh, NIL)).unwrap();
    let cap = core.ptr_to_cap(ptr);
    core.event_inject(SPONSOR, cap, UNIT).unwrap();
    assert_eq!(Run::Done(true), core.run_loop());
    assert_eq!(beh, core.mem(ptr).x);
    assert_eq!(NIL, core.mem(ptr).y);
    assert_eq!(UNDEF, core.mem(ptr).z);
}

#[test]
fn free_takes_the_idle_banks_first_cell() {
    let mut core = Core::new();
    assert_eq!(0, core.gc_phase());
    let cell: Any = 0x5000_0000;
    let next_before = core.ram_next();
    let free_before = core.ram_free();
    let top_before = core.ram_top();
    core.free(cell);
    assert_eq!(Quad::free_t(next_before), core.mem(cell));
    assert_eq!(cell, core.ram_next());
    assert_eq!(PLUS_1, core.ram_free());
    let c = core.reserve(&Quad::pair_t(PLUS_3, NIL)).unwrap();
    assert_eq!(cell, c);
    assert_eq!(Quad::pair_t(PLUS_3, NIL), core.mem(c));
    assert_eq!(next_before, core.ram_next());
    assert_eq!(free_before, core.ram_free());
    assert_eq!(top_before, core.ram_top());
}

#[test]
fn committed_events_join_the_back_of_the_queue() {
    let mut core = Core::new();
    let sink = core.reserve(&Quad::new_actor(SINK_BEH, NIL)).unwrap();
    let to = core.ptr_to_cap(sink);
    let mut steps: Vec<Step> = Vec::new();
    for m in [PLUS_1, PLUS_2, PLUS_3] {
        steps.push(push(m));
        steps.push(push(to));
        steps.push(Box::new(|k| Quad::vm_send(ZERO, k)));
    }
    let beh = program(&mut core, steps, Quad::vm_end_commit());
    let ptr = core.reserve(&Quad::new_actor(beh, NIL)).unwrap();
    let cap = core.ptr_to_cap(ptr);
    core.event_inject(SPONSOR, cap, UNIT).unwrap();
    assert_eq!(Ok(Dispatch::Started), core.dispatch_event());
    assert!(!is_ram(core.e_first()));
    for _ in 0..10 {
        assert_eq!(Ok(true), core.execute_instruction());
    }
    // each send goes in front of the actor's pending events, and the commit
    // appends them to the queue in that order
    let e1 = core.e_first();
    assert_eq!(PLUS_3, core.mem(e1).y);
    let e2 = core.mem(e1).z;
    assert_eq!(PLUS_2, core.mem(e2).y);
    let e3 = core.mem(e2).z;
    assert_eq!(PLUS_1, core.mem(e3).y);
    assert!(!is_ram(core.mem(e3).z));
}

#[test]
fn if_branches_on_the_popped_item() {
    for (item, truthy) in [(TRUE, true), (FALSE, false), (ZERO, false), (NIL, false), (UNDEF, false), (PLUS_1, true)] {
        let mut core = Core::new();
        let yes = program(&mut core, vec![], Quad::vm_end_commit());
        let no = program(&mut core, vec![], Quad::vm_end_stop());
        let beh = program(&mut core, vec![push(PLUS_4), push(item)], Quad::vm_if(yes, no));
        let ptr = core.reserve(&Quad::new_actor(beh, NIL)).unwrap();
        let cap = core.ptr_to_cap(ptr);
        core.event_inject(SPONSOR, cap, UNIT).unwrap();
        core.dispatch_event().unwrap();
        assert_eq!(Ok(true), core.execute_instruction());
        assert_eq!(Ok(true), core.execute_instruction());
        assert_eq!(Ok(true), core.execute_instruction());
        let k = core.k_first();
        assert_eq!(if truthy { yes } else { no }, core.mem(k).t);
        // the condition is gone; the item below it is on top
        assert_eq!(PLUS_4, core.mem(core.mem(k).x).x);
    }
}

#[test]
fn is_ne_fails_on_the_equal_item() {
    let ne: Step = Box::new(|k| Quad::vm_is_ne(PLUS_3, k));
    assert_eq!(Run::Done(false), run_program(vec![push(PLUS_3), ne]));
    let ne: Step = Box::new(|k| Quad::vm_is_ne(PLUS_3, k));
    assert_eq!(Run::Done(true), run_program(vec![push(PLUS_4), ne]));
}

#[test]
fn unknown_instruction_fails_with_bounds_and_changes_nothing() {
    let mut core = Core::new();
    let end = core.reserve(&Quad::vm_end_commit()).unwrap();
    let beh = program(&mut core, vec![push(PLUS_2)], Quad::new(ufork::value::INSTR_T, 0x8000_0001, UNDEF, end));
    let ptr = core.reserve(&Quad::new_actor(beh, NIL)).unwrap();
    let cap = core.ptr_to_cap(ptr);
    core.event_inject(SPONSOR, cap, UNIT).unwrap();
    core.dispatch_event().unwrap();
    assert_eq!(Ok(true), core.execute_instruction());
    let k = core.k_first();
    let sp = core.mem(k).x;
    let top = core.ram_top();
    assert_eq!(Err(E_BOUNDS), core.execute_instruction());
    assert_eq!(sp, core.mem(core.k_first()).x);
    assert_eq!(top, core.ram_top());
}

#[test]
fn deque_push_and_pull_are_first_in_first_out() {
    let mut core = started(SINK_BEH, UNIT);
    let d = core.deque_push(EMPTY_DQ, PLUS_1).unwrap();
    let d = core.deque_push(d, PLUS_2).unwrap();
    let d = core.deque_push(d, PLUS_3).unwrap();
    let (d, a) = core.deque_pull(d).unwrap();
    let (d, b) = core.deque_pull(d).unwrap();
    let (d, c) = core.deque_pull(d).unwrap();
    assert_eq!((PLUS_1, PLUS_2, PLUS_3), (a, b, c));
    assert!(core.deque_empty(d));
    let (_, e) = core.deque_pull(d).unwrap();
    assert_eq!(UNDEF, e);
}

#[test]
fn deque_items_run_from_front_to_back() {
    let mut core = started(SINK_BEH, UNIT);
    let d = core.deque_push(EMPTY_DQ, PLUS_1).unwrap();
    let d = core.deque_put(d, PLUS_2).unwrap();
    let d = core.deque_push(d, ZERO).unwrap();
    assert_eq!(3, core.deque_len(d));
    let (d, a) = core.deque_pop(d).unwrap();
    let (d, b) = core.deque_pull(d).unwrap();
    let (d, c) = core.deque_pop(d).unwrap();
    assert_eq!((ZERO, PLUS_2, PLUS_1), (a, b, c));
    assert!(core.deque_empty(d));
}

#[test]
fn dispatch_starts_an_idle_actor() {
    let mut core = Core::new();
    let ptr = core.reserve(&Quad::new_actor(SINK_BEH, PLUS_2)).unwrap();
    let before = core.mem(ptr);
    let cap = core.ptr_to_cap(ptr);
    core.event_inject(SPONSOR, cap, PLUS_1).unwrap();
    let ep = core.e_first();
    let event = core.mem(ep);
    assert_eq!(Ok(Dispatch::Started), core.dispatch_event());
    assert!(!is_ram(core.e_first()));
    let k = core.k_first();
    assert_eq!(SINK_BEH, core.mem(k).t);
    assert_eq!(PLUS_2, core.mem(k).x);
    assert_eq!(ep, core.mem(k).y);
    assert!(!is_ram(core.mem(k).z));
    assert_eq!(NIL, core.mem(ptr).z);
    assert_eq!(before.x, core.mem(ptr).x);
    let rollback = core.mem(ep).z;
    assert_eq!(before, core.mem(rollback));
    assert_eq!(event.x, core.mem(ep).x);
    assert_eq!(event.y, core.mem(ep).y);
}

#[test]
fn execute_moves_the_continuation_to_the_back() {
    let mut core = Core::new();
    let beh = program(&mut core, vec![push(PLUS_1)], Quad::vm_end_commit());
    let second = core.mem(beh).z;
    let a = core.reserve(&Quad::new_actor(beh, NIL)).unwrap();
    let b = core.reserve(&Quad::new_actor(beh, NIL)).unwrap();
    let cap_a = core.ptr_to_cap(a);
    let cap_b = core.ptr_to_cap(b);
    core.event_inject(SPONSOR, cap_b, UNIT).unwrap();
    core.event_inject(SPONSOR, cap_a, UNIT).unwrap();
    assert_eq!(Ok(Dispatch::Started), core.dispatch_event());
    assert_eq!(Ok(Dispatch::Started), core.dispatch_event());
    let k1 = core.k_first();
    let k2 = core.mem(k1).z;
    assert!(is_ram(k2));
    let instrs = core.sponsor_instrs(SPONSOR);
    assert_eq!(Ok(true), core.execute_instruction());
    assert_eq!(instrs - 1, core.sponsor_instrs(SPONSOR));
    assert_eq!(k2, core.k_first());
    assert_eq!(k1, core.mem(k2).z);
    assert!(!is_ram(core.mem(k1).z));
    assert_eq!(second, core.mem(k1).t);
    assert_eq!(PLUS_1, core.mem(core.mem(k1).x).x);
}

#[test]
fn event_for_a_busy_actor_goes_to_the_back() {
    let mut core = Core::new();
    let a = core.reserve(&Quad::new_actor(SINK_BEH, NIL)).unwrap();
    let b = core.reserve(&Quad::new_actor(SINK_BEH, NIL)).unwrap();
    let cap_a = core.ptr_to_cap(a);
    let cap_b = core.ptr_to_cap(b);
    core.event_inject(SPONSOR, cap_b, PLUS_3).unwrap();
    let e_b = core.e_first();
    core.event_inject(SPONSOR, cap_a, PLUS_2).unwrap();
    let e_a2 = core.e_first();
    core.event_inject(SPONSOR, cap_a, PLUS_1).unwrap();
    assert_eq!(Ok(Dispatch::Started), core.dispatch_event());
    assert_eq!(Ok(Dispatch::Idle), core.dispatch_event());
    assert_eq!(e_b, core.e_first());
    assert_eq!(e_a2, core.mem(e_b).z);
    assert!(!is_ram(core.mem(e_a2).z));
}

#[test]
fn pick_copies_the_nth_item() {
    let pick2: Step = Box::new(|k| Quad::vm_pick(PLUS_2, k));
    assert_eq!(
        Run::Done(true),
        run_program(vec![push(PLUS_1), push(PLUS_3), pick2, is_eq(PLUS_1), is_eq(PLUS_3), is_eq(PLUS_1)])
    );
    let pick3: Step = Box::new(|k| Quad::vm_pick(PLUS_3, k));
    assert_eq!(Run::Done(true), run_program(vec![push(PLUS_1), pick3, is_eq(UNDEF), is_eq(PLUS_1)]));
}
