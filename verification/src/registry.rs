//! Opaque handles for long-lived resources.
//!
//! A boundary caller holds pools, standalone connections and prepared
//! statements as plain 64-bit handles.  The registry is a slot map: a
//! handle is its slot index plus one, so zero never names a resource and
//! can travel as the null handle.  Creation fills a fresh slot; destruction
//! empties exactly that slot and can never disturb another handle's state.

use vstd::prelude::*;

verus! {

/// A slot map owning resources of one kind.
pub struct Registry<T> {
    slots: Vec<Option<T>>,
}

impl<T> Registry<T> {
    /// The slots, in handle order: entry `h - 1` belongs to handle `h`.
    pub closed spec fn entries(self) -> Seq<Option<T>> {
        self.slots@
    }

    /// A handle is live when it names a slot that still holds a resource.
    pub open spec fn valid_handle(self, h: u64) -> bool {
        1 <= h <= self.entries().len() && self.entries()[h - 1] is Some
    }

    pub fn new() -> (r: Self)
        ensures
            r.entries() == Seq::<Option<T>>::empty(),
    {
        Registry { slots: Vec::new() }
    }

    /// Stores a resource and returns its fresh handle.  Existing slots are
    /// untouched, so every live handle stays live.
    pub fn insert(&mut self, value: T) -> (h: u64)
        ensures
            final(self).entries() == old(self).entries().push(Some(value)),
            h as int == old(self).entries().len() + 1,
            final(self).valid_handle(h),
    {
        self.slots.push(Some(value));
        self.slots.len() as u64
    }

    /// Borrows the resource a live handle names; an unknown or destroyed
    /// handle yields nothing.
    pub fn get(&self, h: u64) -> (r: Option<&T>)
        ensures
            self.valid_handle(h) ==> (r matches Some(v) && self.entries()[h - 1] == Some(*v)),
            !self.valid_handle(h) ==> r is None,
    {
        if 1 <= h && h <= self.slots.len() as u64 {
            let idx = (h - 1) as usize;
            match &self.slots[idx] {
                Some(v) => Some(v),
                None => None,
            }
        } else {
            None
        }
    }

    /// Destroys a handle, handing its resource back.  Only that one slot
    /// changes: every other handle's state is untouched, and a second
    /// destroy of the same handle is a reported no-op.
    pub fn take(&mut self, h: u64) -> (r: Option<T>)
        ensures
            final(self).entries().len() == old(self).entries().len(),
            old(self).valid_handle(h) ==> r == old(self).entries()[h - 1]
                && final(self).entries() == old(self).entries().update(h - 1, None),
            !old(self).valid_handle(h) ==> r is None
                && final(self).entries() == old(self).entries(),
    {
        if 1 <= h && h <= self.slots.len() as u64 {
            let idx = (h - 1) as usize;
            let r = self.slots[idx].take();
            proof {
                if old(self).valid_handle(h) {
                    assert(final(self).entries() =~= old(self).entries().update(h - 1, None));
                } else {
                    assert(final(self).entries() =~= old(self).entries());
                }
            }
            r
        } else {
            None
        }
    }
}

/// Destroying one handle is isolated: whatever slot it empties, every
/// other handle still names the slot contents it named before.  Together
/// with the destroy contract this rules out one handle's destruction
/// corrupting an unrelated handle's state, twice-destroyed handles
/// included.
pub proof fn lemma_destroy_isolated<T>(entries: Seq<Option<T>>, h: u64, g: u64)
    requires
        1 <= h <= entries.len(),
        1 <= g <= entries.len(),
        g != h,
    ensures
        entries.update(h - 1, None)[g - 1] == entries[g - 1],
{
}

/// The state of the shared, lock-guarded connection slot behind a
/// connection or prepared-statement handle: the slot either holds the one
/// native connection or has been emptied, which is how "closed" is
/// represented.
#[derive(Debug, Clone, Copy, PartialEq, Eq, Structural)]
pub enum ConnState {
    Open,
    Closed,
}

/// An operation serialized by the slot's lock.  Everything but `Close`
/// borrows the connection and puts it back.
#[derive(Debug, Clone, Copy, PartialEq, Eq, Structural)]
pub enum ConnOp {
    Query,
    Execute,
    Commit,
    Rollback,
    Close,
}

/// What one locked operation leaves in the slot.
pub open spec fn spec_conn_step(s: ConnState, op: ConnOp) -> ConnState {
    match op {
        ConnOp::Close => ConnState::Closed,
        _ => s,
    }
}

/// The slot state after a run of operations in lock-acquisition order.
pub open spec fn spec_conn_run(s: ConnState, ops: Seq<ConnOp>) -> ConnState
    decreases ops.len(),
{
    if ops.len() == 0 {
        s
    } else {
        spec_conn_step(spec_conn_run(s, ops.drop_last()), ops.last())
    }
}

/// A run without a close leaves an open slot open.
pub proof fn lemma_run_without_close_stays_open(ops: Seq<ConnOp>)
    requires
        forall|j: int| 0 <= j < ops.len() ==> !((#[trigger] ops[j]) is Close),
    ensures
        spec_conn_run(ConnState::Open, ops) is Open,
    decreases ops.len(),
{
    if ops.len() > 0 {
        lemma_run_without_close_stays_open(ops.drop_last());
    }
}

/// Operations issued in order against one connection handle observe a
/// consistent single connection: as long as no earlier operation in the
/// sequence closed the slot, each operation finds it open — a
/// statement, then a commit, then a query never sees the connection as
/// closed mid-sequence unless a destroy was issued in between.
pub proof fn lemma_sequential_ops_observe_open(ops: Seq<ConnOp>, i: int)
    requires
        0 <= i <= ops.len(),
        forall|j: int| 0 <= j < i ==> !((#[trigger] ops[j]) is Close),
    ensures
        spec_conn_run(ConnState::Open, ops.subrange(0, i)) is Open,
{
    lemma_run_without_close_stays_open(ops.subrange(0, i));
}

} // verus!
