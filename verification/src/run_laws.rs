//! The run loop round by round: it stops with `Done(false)` exactly when an
//! instruction or a dispatch fails, or when it runs out of rounds.
use vstd::prelude::*;
use crate::value::spec_is_ram;
use crate::cpu::CoreView;
use crate::interp::{Run, Dispatch};

verus! {

impl CoreView {
    /// One round of the run loop: execute an instruction, then (unless there
    /// is no work left) dispatch an event. The outcome when the loop stops
    /// in this round (`None` when it goes on), and the memory it leaves.
    pub open spec fn run_round(self) -> (Option<Run>, CoreView) {
        let (r1, v1) = self.execute_step();
        match r1 {
            Err(_) => (Some(Run::Done(false)), v1),
            Ok(more) => if !more && !spec_is_ram(v1.e_first()) {
                (Some(Run::Done(true)), v1)
            } else {
                let (r2, v2) = v1.dispatch_step();
                match r2 {
                    Ok(Dispatch::Device(id, ep)) => (Some(Run::Device(id, ep)), v2),
                    Ok(_) => (None, v2),
                    Err(_) => (Some(Run::Done(false)), v2),
                }
            },
        }
    }

    /// Does this round fail: does its instruction, or the dispatch after
    /// it, return an error?
    pub open spec fn round_fails(self) -> bool {
        let (r1, v1) = self.execute_step();
        match r1 {
            Err(_) => true,
            Ok(more) => (more || spec_is_ram(v1.e_first())) && v1.dispatch_step().0 is Err,
        }
    }

    /// The memory after `n` rounds.
    pub open spec fn after_rounds(self, n: nat) -> CoreView
        decreases n,
    {
        if n == 0 {
            self
        } else {
            self.run_round().1.after_rounds((n - 1) as nat)
        }
    }

    /// Do the first `n` rounds all go on?
    pub open spec fn rounds_go_on(self, n: nat) -> bool
        decreases n,
    {
        n == 0 || (self.run_round().0 is None && self.run_round().1.rounds_go_on((n - 1) as nat))
    }
}

/// A run of `fuel` rounds is its first round, then the rest of the run.
proof fn lemma_run_step_round(v: CoreView, fuel: nat)
    requires
        fuel > 0,
    ensures
        v.run_step(fuel) == (match v.run_round() {
            (Some(o), w) => (o, w),
            (None, w) => w.run_step((fuel - 1) as nat),
        }),
        v.round_fails() <==> v.run_round().0 == Some(Run::Done(false)),
{
}

/// The run loop answers `Done(false)` exactly when, after rounds that went
/// on, a round fails (its instruction or its dispatch returns an error), or
/// when all of its `fuel` rounds went on.
pub proof fn law_run_fails_exactly_on_error(v: CoreView, fuel: nat)
    ensures
        (v.run_step(fuel).0 == Run::Done(false)) <==> (
            (exists|n: nat| n < fuel && v.rounds_go_on(n) && (#[trigger] v.after_rounds(n)).round_fails())
            || v.rounds_go_on(fuel)),
    decreases fuel,
{
    if fuel > 0 {
        lemma_run_step_round(v, fuel);
        let w = v.run_round().1;
        assert(v.after_rounds(0) == v);
        if v.run_round().0 is None {
            law_run_fails_exactly_on_error(w, (fuel - 1) as nat);
            if v.run_step(fuel).0 == Run::Done(false) {
                if !w.rounds_go_on((fuel - 1) as nat) {
                    let m = choose|m: nat| m < fuel - 1 && w.rounds_go_on(m) && (#[trigger] w.after_rounds(m)).round_fails();
                    assert(v.after_rounds(m + 1) == w.after_rounds(m));
                    assert(v.rounds_go_on(m + 1));
                }
            } else {
                assert forall|n: nat| n < fuel && v.rounds_go_on(n) implies !(#[trigger] v.after_rounds(n)).round_fails() by {
                    if n > 0 {
                        assert(v.after_rounds(n) == w.after_rounds((n - 1) as nat));
                        assert(w.rounds_go_on((n - 1) as nat));
                    }
                }
            }
        } else {
            assert forall|n: nat| 0 < n && n < fuel implies !v.rounds_go_on(n) by {}
            if v.round_fails() {
                assert(v.rounds_go_on(0));
            }
        }
    }
}

} // verus!
