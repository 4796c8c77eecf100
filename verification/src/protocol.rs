//! The order in which the renderer calls its primitive renderers, and how a
//! failing call ends the sequence.
use vstd::prelude::*;

verus! {

/// One call into the primitive renderers while a frame is prepared.
#[derive(Debug, Clone, Copy, PartialEq, Eq, Structural)]
pub enum PrepareCall {
    /// Start the frame in renderer `n`.
    Start(usize),
    /// Prepare batch `batch` of prepared layer `layer`.
    Batch { layer: usize, batch: usize },
    /// Finish the frame in renderer `n`.
    Finish(usize),
}

/// The calls that prepare a frame: every renderer is started once, then the
/// batches are prepared in order, then every renderer is finished once.
pub open spec fn prepare_calls_spec(renderers: nat, batches: Seq<(usize, usize)>) -> Seq<PrepareCall> {
    Seq::new(renderers, |n: int| PrepareCall::Start(n as usize)) + batches.map_values(
        |b: (usize, usize)| PrepareCall::Batch { layer: b.0, batch: b.1 },
    ) + Seq::new(renderers, |n: int| PrepareCall::Finish(n as usize))
}

/// The calls that prepare a frame with `renderers` primitive renderers and
/// the given (layer, batch) pairs, in order.
pub fn prepare_calls(renderers: usize, batches: &[(usize, usize)]) -> (calls: Vec<PrepareCall>)
    ensures
        calls@ == prepare_calls_spec(renderers as nat, batches@),
{
    let mut calls: Vec<PrepareCall> = Vec::new();
    let mut n: usize = 0;
    while n < renderers
        invariant
            0 <= n <= renderers,
            calls@ == Seq::new(n as nat, |k: int| PrepareCall::Start(k as usize)),
        decreases renderers - n,
    {
        calls.push(PrepareCall::Start(n));
        n += 1;
        assert(calls@ =~= Seq::new(n as nat, |k: int| PrepareCall::Start(k as usize)));
    }
    let ghost starts = calls@;
    let mut i: usize = 0;
    while i < batches.len()
        invariant
            0 <= i <= batches@.len(),
            starts == Seq::new(renderers as nat, |k: int| PrepareCall::Start(k as usize)),
            calls@ == starts + batches@.subrange(0, i as int).map_values(
                |b: (usize, usize)| PrepareCall::Batch { layer: b.0, batch: b.1 },
            ),
        decreases batches@.len() - i,
    {
        let (layer, batch) = batches[i];
        calls.push(PrepareCall::Batch { layer, batch });
        i += 1;
        assert(calls@ =~= starts + batches@.subrange(0, i as int).map_values(
            |b: (usize, usize)| PrepareCall::Batch { layer: b.0, batch: b.1 },
        ));
    }
    assert(batches@.subrange(0, i as int) =~= batches@);
    let ghost middle = calls@;
    let mut n: usize = 0;
    while n < renderers
        invariant
            0 <= n <= renderers,
            calls@ == middle + Seq::new(n as nat, |k: int| PrepareCall::Finish(k as usize)),
        decreases renderers - n,
    {
        calls.push(PrepareCall::Finish(n));
        n += 1;
        assert(calls@ =~= middle + Seq::new(n as nat, |k: int| PrepareCall::Finish(k as usize)));
    }
    calls
}

/// Each renderer is started exactly once, and before any batch; each is
/// finished exactly once, and after every batch; the batches come in order.
pub proof fn lemma_prepare_protocol(renderers: nat, batches: Seq<(usize, usize)>)
    requires
        renderers <= usize::MAX,
    ensures
        ({
            let calls = prepare_calls_spec(renderers, batches);
            let r = renderers as int;
            let b = batches.len() as int;
            &&& calls.len() == 2 * r + b
            &&& forall|n: int| 0 <= n < r ==> #[trigger] calls[n] == PrepareCall::Start(n as usize)
            &&& forall|k: int| 0 <= k < b ==> #[trigger] calls[r + k] == (PrepareCall::Batch { layer: batches[k].0, batch: batches[k].1 })
            &&& forall|n: int| 0 <= n < r ==> #[trigger] calls[r + b + n] == PrepareCall::Finish(n as usize)
        }),
{
}

/// The outcome of asking for the next planned call.
#[derive(Debug, Clone, Copy, PartialEq, Eq)]
pub enum Step<T> {
    /// Make this call next.
    Call(T),
    /// Every planned call was made.
    Done,
    /// A call failed; no further call is made.
    Stopped,
}

/// Hands out planned calls in order until one fails.
pub struct CallSequence<T> {
    calls: Vec<T>,
    next: usize,
    stopped: bool,
}

impl<T: Copy> CallSequence<T> {
    /// The planned calls.
    pub closed spec fn plan(&self) -> Seq<T> {
        self.calls@
    }

    /// How many calls were handed out.
    pub closed spec fn handed_out(&self) -> nat {
        self.next as nat
    }

    /// Whether a call failed.
    pub closed spec fn has_stopped(&self) -> bool {
        self.stopped
    }

    pub open spec fn wf(&self) -> bool {
        self.handed_out() <= self.plan().len()
    }

    pub fn new(calls: Vec<T>) -> (sequence: Self)
        ensures
            sequence.wf(),
            sequence.plan() == calls@,
            sequence.handed_out() == 0,
            !sequence.has_stopped(),
    {
        CallSequence { calls, next: 0, stopped: false }
    }

    /// The next call, given whether the previous one succeeded (`true`
    /// before the first call). After a failure nothing more is handed out.
    pub fn next(&mut self, previous_succeeded: bool) -> (step: Step<T>)
        requires
            old(self).wf(),
        ensures
            final(self).wf(),
            final(self).plan() == old(self).plan(),
            (old(self).has_stopped() || !previous_succeeded) ==> step == Step::<T>::Stopped && final(self).has_stopped()
                && final(self).handed_out() == old(self).handed_out(),
            !(old(self).has_stopped() || !previous_succeeded) ==> {
                &&& !final(self).has_stopped()
                &&& old(self).handed_out() < old(self).plan().len() ==> step == Step::Call(
                    old(self).plan()[old(self).handed_out() as int],
                ) && final(self).handed_out() == old(self).handed_out() + 1
                &&& old(self).handed_out() == old(self).plan().len() ==> step == Step::<T>::Done
                    && final(self).handed_out() == old(self).handed_out()
            },
    {
        if self.stopped || !previous_succeeded {
            self.stopped = true;
            return Step::Stopped;
        }
        if self.next < self.calls.len() {
            let call = self.calls[self.next];
            self.next = self.next + 1;
            Step::Call(call)
        } else {
            Step::Done
        }
    }
}

} // verus!
