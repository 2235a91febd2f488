use crate::driver::{INTR_IRQ_SOFTIRQ, INTR_IRQ_TERMINATE};
use crate::error::{intr_err, is_intr_err, UtcpResult};
use crate::driver::dummy::dummy_isr;
use crate::driver::loopback::{loopback_isr, loopback_isr_post};
use crate::net::{NetDeviceHandler, NetStack};
use crate::platform::{IRQEntry, IRQFlags, IrqHandler};
use vstd::prelude::*;

verus! {

/// The interrupt subsystem's tables. The platform layer waits for the
/// signals in `sigmask` on a dedicated thread, and delivers there every
/// signal of `raised`, oldest first.
pub struct IntrState {
    /// Registered IRQ handlers, in registration order.
    pub irqs: Vec<IRQEntry>,
    /// The signals the interrupt thread waits for, each listed once.
    pub sigmask: Vec<i32>,
    /// Signals directed at the interrupt thread and not yet taken by the
    /// platform layer.
    pub raised: Vec<i32>,
    /// Whether the interrupt thread has been started.
    pub running: bool,
}

/// Signal `s` is one the interrupt thread has a use for: the terminate
/// signal, the soft-IRQ signal, or one some entry is registered on.
pub open spec fn sig_accounted(irqs: Seq<IRQEntry>, s: i32) -> bool {
    s == INTR_IRQ_TERMINATE || s == INTR_IRQ_SOFTIRQ || exists|k: int|
        0 <= k < irqs.len() && (#[trigger] irqs[k]).irq == s
}

impl IntrState {
    /// The wait set lists each signal once, every signal in it has a use,
    /// and every registered entry's signal is in it.
    pub open spec fn wf(&self) -> bool {
        &&& self.sigmask@.no_duplicates()
        &&& forall|k: int|
            0 <= k < self.sigmask@.len() ==> sig_accounted(self.irqs@, #[trigger] self.sigmask@[k])
        &&& forall|k: int|
            0 <= k < self.irqs@.len() ==> self.sigmask@.contains(#[trigger] self.irqs@[k].irq)
    }
}

pub const IRQ_CONFLICT_MSG: &'static str = "IRQ already registered with conflicting flags";

/// Some entry already holds `irq` and the two may not share it: sharing
/// needs both entries to ask for it.
pub open spec fn irq_conflict(irqs: Seq<IRQEntry>, irq: i32, shared: bool) -> bool {
    exists|k: int|
        0 <= k < irqs.len() && (#[trigger] irqs[k]).irq == irq && !(irqs[k].flags.is_shared()
            && shared)
}

/// Once an entry holds `irq`, a request for the same signal that differs
/// in asking for sharing is refused.
pub proof fn law_irq_sharing_must_agree(irqs: Seq<IRQEntry>, e: IRQEntry, shared: bool)
    requires
        e.flags.is_shared() != shared,
    ensures
        irq_conflict(irqs.push(e), e.irq, shared),
{
    assert(irqs.push(e)[irqs.len() as int] == e);
}

/// `b` is `a` with signal `sig` raised towards the interrupt thread.
pub open spec fn raised_one(a: IntrState, b: IntrState, sig: i32) -> bool {
    &&& b.irqs == a.irqs
    &&& b.sigmask == a.sigmask
    &&& b.running == a.running
    &&& b.raised@ == a.raised@.push(sig)
}

/// Indices of the entries among the first `n` that are registered on `sig`,
/// in registration order.
pub open spec fn entries_for(irqs: Seq<IRQEntry>, sig: i32, n: nat) -> Seq<usize>
    decreases n,
{
    if n == 0 {
        Seq::empty()
    } else {
        let rest = entries_for(irqs, sig, (n - 1) as nat);
        if irqs[n - 1].irq == sig {
            rest.push((n - 1) as usize)
        } else {
            rest
        }
    }
}

/// What the interrupt thread does with a delivered signal.
#[derive(Debug, PartialEq, Eq)]
pub enum IntrAction {
    /// Leave the wait loop.
    Terminate,
    /// Run the protocol soft-IRQ drain.
    SoftIrq,
    /// Run the handlers of these IRQ entries, in this order.
    Irq(Vec<usize>),
}

/// Fresh interrupt tables: the thread waits for the terminate signal and the
/// soft-IRQ signal only.
pub fn intr_init() -> (r: IntrState)
    ensures
        r.wf(),
        r.irqs@.len() == 0,
        r.sigmask@ == seq![INTR_IRQ_TERMINATE, INTR_IRQ_SOFTIRQ],
        r.raised@.len() == 0,
        !r.running,
{
    let mut sigmask: Vec<i32> = Vec::new();
    sigmask.push(INTR_IRQ_TERMINATE);
    sigmask.push(INTR_IRQ_SOFTIRQ);
    let r = IntrState { irqs: Vec::new(), sigmask, raised: Vec::new(), running: false };
    assert(r.sigmask@.no_duplicates()) by {
        assert(r.sigmask@[0] != r.sigmask@[1]);
    }
    r
}

/// Adds `sig` to a signal list unless it is already there.
fn sigmask_add(mask: &mut Vec<i32>, sig: i32)
    ensures
        final(mask)@.to_set() == old(mask)@.to_set().insert(sig),
        old(mask)@.no_duplicates() ==> final(mask)@.no_duplicates(),
{
    let mut i: usize = 0;
    while i < mask.len()
        invariant
            i <= mask@.len(),
            mask@ == old(mask)@,
            forall|j: int| 0 <= j < i ==> mask@[j] != sig,
        decreases mask@.len() - i,
    {
        if mask[i] == sig {
            assert(mask@.to_set().insert(sig) =~= mask@.to_set()) by {
                assert(mask@.contains(sig));
            }
            return;
        }
        i = i + 1;
    }
    proof {
        assert(!mask@.contains(sig));
    }
    mask.push(sig);
    assert(mask@.to_set() =~= old(mask)@.to_set().insert(sig)) by {
        assert forall|x: i32| mask@.contains(x) <==> old(mask)@.contains(x) || x == sig by {
            if old(mask)@.contains(x) {
                let j = choose|j: int| 0 <= j < old(mask)@.len() && old(mask)@[j] == x;
                assert(mask@[j] == x);
            }
            if x == sig {
                assert(mask@[old(mask)@.len() as int] == sig);
            }
        }
    }
}

/// Registers `handler` for signal `irq` on behalf of `dev`, and adds `irq`
/// to the signals the interrupt thread waits for. Fails when another entry
/// holds `irq` and the two may not share it.
pub fn intr_request_irq(
    intr: &mut IntrState,
    irq: i32,
    handler: IrqHandler,
    flags: IRQFlags,
    name: String,
    dev: NetDeviceHandler,
) -> (r: UtcpResult<()>)
    requires
        old(intr).wf(),
    ensures
        final(intr).wf(),
        irq_conflict(old(intr).irqs@, irq, flags.is_shared()) ==> is_intr_err(
            r,
            IRQ_CONFLICT_MSG@,
        ) && *final(intr) == *old(intr),
        !irq_conflict(old(intr).irqs@, irq, flags.is_shared()) ==> {
            &&& r is Ok
            &&& final(intr).irqs@ == old(intr).irqs@.push(
                IRQEntry { irq, flags, debug_name: name, dev, handler },
            )
            &&& final(intr).sigmask@.to_set() == old(intr).sigmask@.to_set().insert(irq)
            &&& old(intr).sigmask@.no_duplicates() ==> final(intr).sigmask@.no_duplicates()
            &&& final(intr).raised == old(intr).raised
            &&& final(intr).running == old(intr).running
        },
{
    let shared = flags.contains_shared();
    let mut i: usize = 0;
    while i < intr.irqs.len()
        invariant
            i <= intr.irqs@.len(),
            intr.wf(),
            shared == flags.is_shared(),
            forall|j: int|
                0 <= j < i ==> !((#[trigger] intr.irqs@[j]).irq == irq && !(
                intr.irqs@[j].flags.is_shared() && shared)),
        decreases intr.irqs@.len() - i,
    {
        let ent = &intr.irqs[i];
        if ent.irq == irq && !(ent.flags.contains_shared() && shared) {
            return Err(intr_err(IRQ_CONFLICT_MSG));
        }
        i = i + 1;
    }
    let ghost old_irqs = intr.irqs@;
    let ghost old_mask = intr.sigmask@;
    intr.irqs.push(IRQEntry { irq, flags, debug_name: name, dev, handler });
    sigmask_add(&mut intr.sigmask, irq);
    proof {
        let irqs = intr.irqs@;
        let mask = intr.sigmask@;
        assert(irqs[old_irqs.len() as int].irq == irq);
        assert forall|k: int| 0 <= k < mask.len() implies sig_accounted(irqs, #[trigger] mask[k]) by {
            assert(mask.to_set().contains(mask[k]));
            if mask[k] != irq {
                assert(old_mask.to_set().contains(mask[k]));
                let j = choose|j: int| 0 <= j < old_mask.len() && old_mask[j] == mask[k];
                assert(sig_accounted(old_irqs, old_mask[j]));
                if !(mask[k] == INTR_IRQ_TERMINATE || mask[k] == INTR_IRQ_SOFTIRQ) {
                    let e = choose|e: int| 0 <= e < old_irqs.len() && (#[trigger] old_irqs[e]).irq == mask[k];
                    assert(irqs[e] == old_irqs[e]);
                }
            }
        }
        assert forall|k: int| 0 <= k < irqs.len() implies mask.contains(#[trigger] irqs[k].irq) by {
            assert(mask.to_set().contains(irqs[k].irq)) by {
                if k < old_irqs.len() {
                    assert(irqs[k] == old_irqs[k]);
                    assert(old_mask.contains(old_irqs[k].irq));
                    assert(old_mask.to_set().contains(old_irqs[k].irq));
                }
            }
        }
    }
    Ok(())
}

/// Directs signal `irq` at the interrupt thread.
pub fn intr_raise_irq(intr: &mut IntrState, irq: i32) -> (r: UtcpResult<()>)
    ensures
        r is Ok,
        raised_one(*old(intr), *final(intr), irq),
{
    intr.raised.push(irq);
    Ok(())
}

/// Marks the interrupt thread as started.
pub fn intr_run(intr: &mut IntrState) -> (r: UtcpResult<()>)
    ensures
        r is Ok,
        final(intr).running,
        final(intr).irqs == old(intr).irqs,
        final(intr).sigmask == old(intr).sigmask,
        final(intr).raised == old(intr).raised,
{
    intr.running = true;
    Ok(())
}

/// Asks a started interrupt thread to stop by raising the terminate signal;
/// does nothing when no thread was started.
pub fn intr_shutdown(intr: &mut IntrState) -> (r: UtcpResult<()>)
    ensures
        r is Ok,
        !final(intr).running,
        final(intr).irqs == old(intr).irqs,
        final(intr).sigmask == old(intr).sigmask,
        old(intr).running ==> final(intr).raised@ == old(intr).raised@.push(INTR_IRQ_TERMINATE),
        !old(intr).running ==> final(intr).raised == old(intr).raised,
{
    if intr.running {
        intr.raised.push(INTR_IRQ_TERMINATE);
        intr.running = false;
    }
    Ok(())
}

/// Hands the raised signals, oldest first, to the platform layer.
pub fn intr_take_raised(intr: &mut IntrState) -> (r: Vec<i32>)
    ensures
        r@ == old(intr).raised@,
        final(intr).raised@.len() == 0,
        final(intr).irqs == old(intr).irqs,
        final(intr).sigmask == old(intr).sigmask,
        final(intr).running == old(intr).running,
{
    let r = intr.raised.split_off(0);
    assert(r@ =~= old(intr).raised@);
    r
}

/// Decides what the interrupt thread does with the delivered signal `sig`:
/// stop on the terminate signal, drain the protocol queues on the soft-IRQ
/// signal, and otherwise run every handler registered on `sig`.
pub fn intr_dispatch(intr: &IntrState, sig: i32) -> (r: IntrAction)
    ensures
        sig == INTR_IRQ_TERMINATE ==> r == IntrAction::Terminate,
        sig == INTR_IRQ_SOFTIRQ ==> r == IntrAction::SoftIrq,
        sig != INTR_IRQ_TERMINATE && sig != INTR_IRQ_SOFTIRQ ==> (r matches IntrAction::Irq(v)
            && v@ == entries_for(intr.irqs@, sig, intr.irqs@.len())),
{
    if sig == INTR_IRQ_TERMINATE {
        return IntrAction::Terminate;
    }
    if sig == INTR_IRQ_SOFTIRQ {
        return IntrAction::SoftIrq;
    }
    let mut found: Vec<usize> = Vec::new();
    let mut i: usize = 0;
    while i < intr.irqs.len()
        invariant
            i <= intr.irqs@.len(),
            found@ == entries_for(intr.irqs@, sig, i as nat),
        decreases intr.irqs@.len() - i,
    {
        if intr.irqs[i].irq == sig {
            found.push(i);
        }
        i = i + 1;
    }
    IntrAction::Irq(found)
}

/// Runs the handler of IRQ entry `k` for the delivered signal `sig`.
pub fn intr_invoke(stack: &mut NetStack, k: usize, sig: i32)
    requires
        old(stack).wf(),
        k < old(stack).intr.irqs@.len(),
    ensures
        final(stack).wf(),
        old(stack).intr.irqs@[k as int].handler == IrqHandler::Dummy ==> *final(stack) == *old(
            stack),
        old(stack).intr.irqs@[k as int].handler == IrqHandler::Loopback ==> loopback_isr_post(
            *old(stack),
            *final(stack),
            old(stack).intr.irqs@[k as int].dev,
        ),
{
    let dev = stack.intr.irqs[k].dev;
    match stack.intr.irqs[k].handler {
        IrqHandler::Dummy => dummy_isr(sig, dev),
        IrqHandler::Loopback => loopback_isr(stack, sig, dev),
    }
}

} // verus!
