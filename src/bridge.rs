use vstd::prelude::*;
use crate::dispatch::{Action, GuestFrame, execute_riscv, exit_outcome, yield_shape};
use crate::gas::Gas;
use crate::host::{FrameContext, Host};
use crate::image::{riscv_context, is_guest_code, initial_memory, fresh_frame};
use crate::machine::{RiscVInterpreter, RunExit, in_range, bytes_at, written};
use crate::laws::lemma_continuation_integrity;

verus! {

/// A change in the host's frame stack, as the bridge sees it.
pub enum FrameEvent {
    /// The host created a frame (a call or a create).
    Created,
    /// A frame produced an action; `true` where it was terminal.
    Finished(bool),
}

/// The call-stack depth after one event.
pub open spec fn depth_step(d: nat, e: FrameEvent) -> nat {
    match e {
        FrameEvent::Created => d + 1,
        FrameEvent::Finished(terminal) => if terminal && d > 0 { (d - 1) as nat } else { d },
    }
}

/// Whether an action ends its frame.
pub open spec fn is_terminal(a: Action) -> bool {
    a is Halt
}

/// What delivering a child's `output` does to the waiting parent: the
/// pending continuation is cleared, and the output is copied into the
/// reserved range only where the lengths match.
pub open spec fn delivery(before: GuestFrame, output: Seq<u8>, after: GuestFrame) -> bool {
    &&& after.pending.is_none()
    &&& after.cpu.pc == before.cpu.pc
    &&& after.cpu.regs == before.cpu.regs
    &&& after.cpu.counts == before.cpu.counts
    &&& after.cpu.memory.base == before.cpu.memory.base
    &&& match before.pending {
        Some(r) if output.len() == r.size && in_range(before.cpu.memory, r.offset, r.size) =>
            after.cpu.memory.bytes@ == written(
                before.cpu.memory.bytes@,
                r.offset - before.cpu.memory.base,
                output,
            ),
        _ => after.cpu.memory.bytes@ == before.cpu.memory.bytes@,
    }
}

/// Hands a finished child's output to the frame that waits for it.
pub fn deliver(parent: &mut GuestFrame, output: &[u8])
    ensures
        delivery(*old(parent), output@, *final(parent)),
{
    if let Some(r) = parent.pending {
        if output.len() as u64 == r.size {
            parent.cpu.memory.write(r.offset, output);
        }
    }
    parent.pending = None;
}

/// The bridge's call stack: one slot per live host frame, holding the guest
/// context of a guest frame and nothing for a native one.
pub struct CallStack {
    slots: Vec<Option<GuestFrame>>,
}

impl View for CallStack {
    type V = Seq<Option<GuestFrame>>;

    closed spec fn view(&self) -> Seq<Option<GuestFrame>> {
        self.slots@
    }
}

impl CallStack {
    /// Every waiting guest frame's pending range lies inside its memory.
    pub closed spec fn wf(self) -> bool {
        forall|i: int| 0 <= i < self.slots@.len() ==> (#[trigger] self.slots@[i]).is_some() ==> self.slots@[i].unwrap().wf()
    }

    pub fn new() -> (r: CallStack)
        ensures
            r@.len() == 0,
            r.wf(),
    {
        CallStack { slots: Vec::new() }
    }

    pub fn depth(&self) -> (r: usize)
        ensures
            r == self@.len(),
    {
        self.slots.len()
    }

    /// Whether the frame on top runs guest code.
    pub fn top_is_guest(&self) -> (r: bool)
        ensures
            r == (self@.len() > 0 && self@.last().is_some()),
    {
        let n = self.slots.len();
        n > 0 && self.slots[n - 1].is_some()
    }

    /// The guest frame on top, if there is one.
    pub fn top_frame(&self) -> (r: Option<&GuestFrame>)
        ensures
            r.is_some() == (self@.len() > 0 && self@.last().is_some()),
            r.is_some() ==> *r.unwrap() == self@.last().unwrap(),
    {
        let n = self.slots.len();
        if n == 0 {
            None
        } else {
            match &self.slots[n - 1] {
                Some(f) => Some(f),
                None => None,
            }
        }
    }

    /// The create hook, for calls and creates alike: exactly one slot is
    /// pushed for the new frame, a guest context where its code holds a
    /// loadable guest image and nothing otherwise.
    pub fn on_frame_created(&mut self, bytecode: &[u8], input: &[u8]) -> (is_guest: bool)
        requires
            old(self).wf(),
        ensures
            final(self).wf(),
            final(self)@.len() == depth_step(old(self)@.len(), FrameEvent::Created),
            final(self)@.subrange(0, old(self)@.len() as int) == old(self)@,
            final(self)@.last().is_some() == is_guest,
            is_guest == (is_guest_code(bytecode@) && initial_memory(bytecode@.drop_first(), input@).is_some()),
            is_guest ==> fresh_frame(bytecode@.drop_first(), input@, final(self)@.last().unwrap()),
    {
        let slot = riscv_context(bytecode, input);
        let is_guest = slot.is_some();
        self.slots.push(slot);
        proof {
            assert(self@.subrange(0, old(self)@.len() as int) =~= old(self)@);
        }
        is_guest
    }

    /// The execute hook for a guest frame: runs the frame on top until it
    /// yields. `None` where the top frame is native (or there is none); the
    /// host's own interpreter runs it then.
    pub fn execute_top<E: RiscVInterpreter, H: Host>(
        &mut self,
        emu: &mut E,
        ctx: &FrameContext,
        host: &mut H,
        gas: &mut Gas,
    ) -> (r: Option<Action>)
        requires
            old(self).wf(),
        ensures
            final(self).wf(),
            final(self)@.len() == old(self)@.len(),
            old(self)@.len() > 0 ==> final(self)@.subrange(0, old(self)@.len() - 1)
                == old(self)@.subrange(0, old(self)@.len() - 1),
            r.is_some() == (old(self)@.len() > 0 && old(self)@.last().is_some()),
            r.is_some() ==> final(self)@.last().is_some(),
            r.is_none() ==> *final(self) == *old(self),
            final(gas).spec_limit() == old(gas).spec_limit(),
            final(gas).spec_remaining() <= old(gas).spec_remaining(),
            r matches Some(a) ==> {
                let top = final(self)@.last().unwrap();
                &&& yield_shape(top, final(gas).spec_remaining(), a)
                &&& exists|mid: GuestFrame, exit: RunExit, g0: u64|
                    mid.pending.is_none() && g0 <= old(gas).spec_remaining() && exit_outcome(
                        mid,
                        exit,
                        top,
                        *ctx,
                        g0,
                        final(gas).spec_remaining(),
                        Some(a),
                    )
            },
    {
        if !self.top_is_guest() {
            return None;
        }
        let mut frame = self.slots.pop().unwrap().unwrap();
        let action = execute_riscv(&mut frame, emu, ctx, host, gas);
        self.slots.push(Some(frame));
        proof {
            assert(self@.subrange(0, old(self)@.len() - 1) =~= old(self)@.subrange(
                0,
                old(self)@.len() - 1,
            ));
        }
        Some(action)
    }

    /// The hook after any frame, guest or native, produced an action. A
    /// terminal action pops the frame; if the frame below waits on a guest
    /// call, the output is delivered to it.
    pub fn on_frame_finished(&mut self, action: &Action)
        requires
            old(self).wf(),
        ensures
            final(self).wf(),
            final(self)@.len() == depth_step(
                old(self)@.len(),
                FrameEvent::Finished(is_terminal(*action)),
            ),
            !is_terminal(*action) || old(self)@.len() == 0 ==> *final(self) == *old(self),
            is_terminal(*action) && old(self)@.len() > 0 ==> {
                let n = old(self)@.len() - 1;
                n > 0 ==> final(self)@.subrange(0, n - 1) == old(self)@.subrange(0, n - 1)
                    && match old(self)@[n - 1] {
                    None => final(self)@[n - 1].is_none(),
                    Some(parent) => final(self)@[n - 1].is_some() && delivery(
                        parent,
                        action.halt_output(),
                        final(self)@[n - 1].unwrap(),
                    ) && (parent.pending matches Some(rng) ==> (action.halt_output().len() == rng.size
                        ==> bytes_at(final(self)@[n - 1].unwrap().cpu.memory, rng.offset, rng.size)
                        == action.halt_output())),
                }
            },
    {
        let output = match action {
            Action::Halt { output, .. } => output,
            Action::Call { .. } => {
                return;
            },
        };
        if self.slots.len() == 0 {
            return;
        }
        self.slots.pop();
        let n = self.slots.len();
        if n == 0 {
            return;
        }
        let ghost mid = self@;
        let slot = self.slots.pop().unwrap();
        match slot {
            None => {
                self.slots.push(None);
            },
            Some(mut parent) => {
                let ghost before = parent;
                deliver(&mut parent, output.as_slice());
                proof {
                    assert(Some(before) == old(self)@[n - 1]);
                    if before.pending.is_some() {
                        lemma_continuation_integrity(before, output@, parent);
                    }
                }
                self.slots.push(Some(parent));
            },
        }
        proof {
            assert(self@.subrange(0, n - 1) =~= mid.subrange(0, n - 1));
            assert(mid =~= old(self)@.subrange(0, old(self)@.len() - 1));
        }
    }
}

} // verus!
