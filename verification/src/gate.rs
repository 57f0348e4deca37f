//! Request serializer: a single process-wide permit. A generation request
//! holds the permit from augmentation through history update, because only
//! one inference context exists and it is not safe for concurrent mutation.
//! The trace lemmas prove that the decode phases of two requests never
//! overlap.

use vstd::prelude::*;

verus! {

/// The single-permit gate.
pub struct SerializerGate {
    held: bool,
}

impl SerializerGate {
    /// Whether the permit is currently held.
    pub closed spec fn is_held(&self) -> bool {
        self.held
    }

    /// A fresh gate; nobody holds the permit.
    pub fn new() -> (g: SerializerGate)
        ensures
            !g.is_held(),
    {
        SerializerGate { held: false }
    }

    /// Takes the permit when it is free: succeeds exactly when nobody held
    /// it, and the permit is held afterwards in either case.
    pub fn try_acquire(&mut self) -> (got: bool)
        ensures
            got == !old(self).is_held(),
            final(self).is_held(),
    {
        let got = !self.held;
        self.held = true;
        got
    }

    /// Returns the permit.
    pub fn release(&mut self)
        requires
            old(self).is_held(),
        ensures
            !final(self).is_held(),
    {
        self.held = false;
    }
}

/// One entry of a gate trace, tagged with the request it belongs to.
pub ghost enum GateEvent {
    Acquire(nat),
    Work(nat),
    Release(nat),
}

/// Who holds the permit after the trace `tr`.
pub open spec fn holder_after(tr: Seq<GateEvent>) -> Option<nat>
    decreases tr.len(),
{
    if tr.len() == 0 {
        Option::None
    } else {
        match tr.last() {
            GateEvent::Acquire(r) => Option::Some(r),
            GateEvent::Release(r) => Option::None,
            GateEvent::Work(r) => holder_after(tr.drop_last()),
        }
    }
}

/// The locking discipline: the permit is taken only when free, and a decode
/// step or a release happens only while that same request holds the permit.
pub open spec fn valid_trace(tr: Seq<GateEvent>) -> bool {
    forall|k: int|
        0 <= k < tr.len() ==> match #[trigger] tr[k] {
            GateEvent::Acquire(r) => holder_after(tr.take(k)) is None,
            GateEvent::Work(r) => holder_after(tr.take(k)) == Option::Some(r),
            GateEvent::Release(r) => holder_after(tr.take(k)) == Option::Some(r),
        }
}

/// While the holder does not release, the permit stays with it: no other
/// request can acquire in between.
pub proof fn lemma_holder_persists(tr: Seq<GateEvent>, i: int, j: int, r: nat)
    requires
        valid_trace(tr),
        0 <= i <= j <= tr.len(),
        holder_after(tr.take(i)) == Option::Some(r),
        forall|k: int| i <= k < j ==> tr[k] != GateEvent::Release(r),
    ensures
        holder_after(tr.take(j)) == Option::Some(r),
    decreases j - i,
{
    if i < j {
        lemma_holder_persists(tr, i, j - 1, r);
        assert(tr.take(j).last() == tr[j - 1]);
        assert(tr.take(j).drop_last() =~= tr.take(j - 1));
        match tr[j - 1] {
            GateEvent::Acquire(x) => {
                assert(holder_after(tr.take(j - 1)) is None);
            },
            GateEvent::Release(x) => {
                assert(holder_after(tr.take(j - 1)) == Option::Some(x));
            },
            GateEvent::Work(x) => {},
        }
    }
}

/// Law: work under the permit is serialized. If two work events belong to
/// different requests, the earlier request releases the permit strictly
/// between them: their holding windows never overlap.
pub proof fn lemma_work_serialized(tr: Seq<GateEvent>, i: int, j: int, r1: nat, r2: nat)
    requires
        valid_trace(tr),
        0 <= i < j < tr.len(),
        tr[i] == GateEvent::Work(r1),
        tr[j] == GateEvent::Work(r2),
        r1 != r2,
    ensures
        exists|k: int| i < k < j && tr[k] == GateEvent::Release(r1),
{
    if forall|k: int| i < k < j ==> tr[k] != GateEvent::Release(r1) {
        assert(holder_after(tr.take(i)) == Option::Some(r1));
        assert(tr.take(i + 1).last() == tr[i]);
        assert(tr.take(i + 1).drop_last() =~= tr.take(i));
        assert(holder_after(tr.take(i + 1)) == Option::Some(r1));
        lemma_holder_persists(tr, i + 1, j, r1);
        assert(holder_after(tr.take(j)) == Option::Some(r2));
        assert(false);
    }
}

} // verus!
