use vstd::prelude::*;
use crate::bridge::{FrameEvent, depth_step, delivery};
use crate::dispatch::{Action, GuestFrame, HostAnswers, syscall_outcome};
use crate::host::FrameContext;
use crate::machine::{in_range, bytes_at, written};

verus! {

/// Two actions are the same: same kind, status, output, target, value,
/// calldata and gas limit.
pub open spec fn same_action(r1: Option<Action>, r2: Option<Action>) -> bool {
    match (r1, r2) {
        (None, None) => true,
        (Some(Action::Halt { status: s1, output: o1 }), Some(Action::Halt { status: s2, output: o2 })) =>
            s1 == s2 && o1@ == o2@,
        (
            Some(Action::Call { target: t1, value: v1, calldata: c1, gas_limit: l1 }),
            Some(Action::Call { target: t2, value: v2, calldata: c2, gas_limit: l2 }),
        ) => t1 == t2 && v1 == v2 && c1@ == c2@ && l1 == l2,
        _ => false,
    }
}

/// The number of live host frames after a run of events.
pub open spec fn host_frames(events: Seq<FrameEvent>) -> int
    decreases events.len(),
{
    if events.len() == 0 {
        0
    } else {
        host_frames(events.drop_last()) + match events.last() {
            FrameEvent::Created => 1int,
            FrameEvent::Finished(terminal) => if terminal { -1int } else { 0int },
        }
    }
}

/// The call-stack depth after a run of events, starting empty.
pub open spec fn stack_depth(events: Seq<FrameEvent>) -> nat
    decreases events.len(),
{
    if events.len() == 0 {
        0
    } else {
        depth_step(stack_depth(events.drop_last()), events.last())
    }
}

/// The call-stack depth always equals the host's frame depth: whenever the
/// host never finishes more frames than it created, every created frame is
/// pushed once and every terminal action pops once, whatever the frame's kind.
pub proof fn lemma_depth_tracks_host_frames(events: Seq<FrameEvent>)
    requires
        forall|k: int| 0 <= k <= events.len() ==> host_frames(#[trigger] events.subrange(0, k)) >= 0,
    ensures
        stack_depth(events) == host_frames(events),
    decreases events.len(),
{
    if events.len() > 0 {
        let prev = events.drop_last();
        assert forall|k: int| 0 <= k <= prev.len() implies host_frames(
            #[trigger] prev.subrange(0, k),
        ) >= 0 by {
            assert(prev.subrange(0, k) =~= events.subrange(0, k));
        }
        lemma_depth_tracks_host_frames(prev);
        assert(events.subrange(0, events.len() as int) =~= events);
    }
}

/// Continuation integrity: where a child's output is as long as the range
/// its parent reserved, the range afterwards holds exactly that output;
/// where the lengths differ, the parent's memory is unchanged.
pub proof fn lemma_continuation_integrity(before: GuestFrame, output: Seq<u8>, after: GuestFrame)
    requires
        before.pending.is_some(),
        in_range(before.cpu.memory, before.pending.unwrap().offset, before.pending.unwrap().size),
        delivery(before, output, after),
    ensures
        output.len() == before.pending.unwrap().size ==> bytes_at(
            after.cpu.memory,
            before.pending.unwrap().offset,
            before.pending.unwrap().size,
        ) == output,
        output.len() != before.pending.unwrap().size ==> after.cpu.memory.bytes@
            == before.cpu.memory.bytes@,
        after.pending.is_none(),
{
    let r = before.pending.unwrap();
    if output.len() == r.size {
        let off = r.offset - before.cpu.memory.base;
        let w = written(before.cpu.memory.bytes@, off, output);
        assert(w.subrange(off, off + r.size) =~= output);
    }
}

/// Deterministic dispatch: one system call on one frame state, with the
/// host giving the same answers, has one outcome: the same frame state,
/// the same gas left, and the same action.
pub proof fn lemma_deterministic_dispatch(
    b: GuestFrame,
    a1: GuestFrame,
    a2: GuestFrame,
    ctx: FrameContext,
    ans: HostAnswers,
    g0: u64,
    g1: u64,
    g2: u64,
    r1: Option<Action>,
    r2: Option<Action>,
)
    requires
        syscall_outcome(b, a1, ctx, ans, g0, g1, r1),
        syscall_outcome(b, a2, ctx, ans, g0, g2, r2),
    ensures
        a1.cpu.pc == a2.cpu.pc,
        a1.cpu.regs@ == a2.cpu.regs@,
        a1.cpu.memory.base == a2.cpu.memory.base,
        a1.cpu.memory.bytes@ == a2.cpu.memory.bytes@,
        a1.cpu.counts@ == a2.cpu.counts@,
        a1.pending == a2.pending,
        g1 == g2,
        same_action(r1, r2),
{
    match (r1, r2) {
        (Some(Action::Halt { output: o1, .. }), Some(Action::Halt { output: o2, .. })) => {
            if o1@.len() == 0 && o2@.len() == 0 {
                assert(o1@ =~= o2@);
            }
        },
        _ => {},
    }
    if a1.cpu.counts@.len() == 0 && a2.cpu.counts@.len() == 0 {
        assert(a1.cpu.counts@ =~= a2.cpu.counts@);
    }
}

} // verus!
