use vstd::prelude::*;

use crate::codec::{UnicomRequest, UnixMessage};
use crate::error::{UnicomError, UnicomErrorKind};

verus! {

/// What a pending request ends with: the reply's bytes or the peer's error.
pub type Outcome = Result<Vec<u8>, UnicomError>;

/// A stored outcome may be taken by an awaiter only while the slot is empty.
pub open spec fn accepts_outcome(m: Map<u64, Option<Outcome>>, id: u64) -> bool {
    m.contains_key(id) && m[id] is None
}

/// The outcome stored for `id`, which `get` hands to its awaiter.
pub open spec fn stored_outcome(m: Map<u64, Option<Outcome>>, id: u64) -> Option<Outcome> {
    if m.contains_key(id) {
        m[id]
    } else {
        None
    }
}

/// Correlates the ids of outgoing requests with their outcomes.
pub struct PendingController {
    next_id: u64,
    slots: Vec<(u64, Option<Outcome>)>,
    table: Ghost<Map<u64, Option<Outcome>>>,
    issued: Ghost<Seq<u64>>,
}

impl PendingController {
    /// The slots: request id to the outcome received so far.
    pub closed spec fn view(&self) -> Map<u64, Option<Outcome>> {
        self.table@
    }

    /// Every id that `create` has handed out, in order.
    pub closed spec fn issued(&self) -> Seq<u64> {
        self.issued@
    }

    /// The id that the next `create` hands out.
    pub closed spec fn next(&self) -> u64 {
        self.next_id
    }

    pub closed spec fn wf(&self) -> bool {
        &&& forall|i: int, j: int|
            0 <= i < j < self.slots@.len() ==> self.slots@[i].0 != self.slots@[j].0
        &&& forall|i: int|
            0 <= i < self.slots@.len() ==> #[trigger] self.table@.contains_key(self.slots@[i].0)
                && self.table@[self.slots@[i].0] == self.slots@[i].1
        &&& forall|k: u64|
            self.table@.contains_key(k) ==> exists|i: int|
                0 <= i < self.slots@.len() && #[trigger] self.slots@[i].0 == k
        &&& forall|k: u64| self.table@.contains_key(k) ==> k < self.next_id
        &&& forall|i: int, j: int|
            0 <= i < j < self.issued@.len() ==> self.issued@[i] < self.issued@[j]
        &&& forall|i: int| 0 <= i < self.issued@.len() ==> self.issued@[i] < self.next_id
    }

    pub fn new() -> (r: PendingController)
        ensures
            r.wf(),
            r@ == Map::<u64, Option<Outcome>>::empty(),
            r.issued().len() == 0,
            r.next() == 1,
    {
        PendingController {
            next_id: 1,
            slots: Vec::new(),
            table: Ghost(Map::empty()),
            issued: Ghost(Seq::empty()),
        }
    }

    /// Whether another id can still be handed out.
    pub fn can_create(&self) -> (r: bool)
        ensures
            r == (self.next() < u64::MAX),
    {
        self.next_id < u64::MAX
    }

    /// Allocates a fresh id with an empty slot.
    pub fn create(&mut self) -> (r: u64)
        requires
            old(self).wf(),
            old(self).next() < u64::MAX,
        ensures
            final(self).wf(),
            r == old(self).next(),
            !old(self)@.contains_key(r),
            final(self)@ == old(self)@.insert(r, None),
            final(self).issued() == old(self).issued().push(r),
            final(self).next() == r + 1,
    {
        let id = self.next_id;
        self.slots.push((id, None));
        self.table = Ghost(self.table@.insert(id, None));
        self.issued = Ghost(self.issued@.push(id));
        self.next_id = id + 1;
        proof {
            let n = self.slots@.len() - 1;
            assert forall|i: int| 0 <= i < n implies old(self).slots@[i].0 < id by {
                assert(old(self).table@.contains_key(old(self).slots@[i].0));
            }
            assert forall|i: int| 0 <= i < self.slots@.len() implies #[trigger] self.table@.contains_key(self.slots@[i].0)
                && self.table@[self.slots@[i].0] == self.slots@[i].1 by {
                if i < n {
                    assert(old(self).table@.contains_key(old(self).slots@[i].0));
                    assert(self.slots@[i] == old(self).slots@[i]);
                }
            }
            assert forall|k: u64| self.table@.contains_key(k) implies exists|i: int|
                0 <= i < self.slots@.len() && #[trigger] self.slots@[i].0 == k by {
                if k == id {
                    assert(self.slots@[n].0 == k);
                } else {
                    let i = choose|i: int| 0 <= i < old(self).slots@.len() && #[trigger] old(self).slots@[i].0 == k;
                    assert(self.slots@[i].0 == k);
                }
            }
        }
        id
    }

    fn find(&self, id: u64) -> (r: Option<usize>)
        requires
            self.wf(),
        ensures
            match r {
                Some(i) => i < self.slots@.len() && self.slots@[i as int].0 == id,
                None => !self@.contains_key(id),
            },
    {
        let mut i: usize = 0;
        while i < self.slots.len()
            invariant
                0 <= i <= self.slots@.len(),
                forall|j: int| 0 <= j < i ==> self.slots@[j].0 != id,
            decreases self.slots@.len() - i,
        {
            if self.slots[i].0 == id {
                return Some(i);
            }
            i = i + 1;
        }
        None
    }

    /// Stores the outcome received for `id`. Refused with `ParameterInvalid`
    /// when no request with that id waits for one.
    pub fn update(&mut self, id: u64, result: Outcome) -> (r: Result<(), UnicomError>)
        requires
            old(self).wf(),
        ensures
            final(self).wf(),
            final(self).issued() == old(self).issued(),
            final(self).next() == old(self).next(),
            match r {
                Ok(()) => accepts_outcome(old(self)@, id) && final(self)@ == old(self)@.insert(
                    id,
                    Some(result),
                ),
                Err(e) => !accepts_outcome(old(self)@, id) && final(self)@ == old(self)@
                    && e.kind == UnicomErrorKind::ParameterInvalid,
            },
    {
        match self.find(id) {
            Some(i) => {
                if self.slots[i].1.is_some() {
                    return Err(UnicomError::new(UnicomErrorKind::ParameterInvalid, "request already answered"));
                }
                proof {
                    assert(old(self).table@.contains_key(old(self).slots@[i as int].0));
                }
                self.slots.set(i, (id, Some(result)));
                self.table = Ghost(self.table@.insert(id, Some(result)));
                proof {
                    assert forall|j: int| 0 <= j < self.slots@.len() implies #[trigger] self.table@.contains_key(self.slots@[j].0)
                        && self.table@[self.slots@[j].0] == self.slots@[j].1 by {
                        if j != i {
                            assert(old(self).table@.contains_key(old(self).slots@[j].0));
                            assert(self.slots@[j] == old(self).slots@[j]);
                        }
                    }
                    assert forall|k: u64| self.table@.contains_key(k) implies exists|j: int|
                        0 <= j < self.slots@.len() && #[trigger] self.slots@[j].0 == k by {
                        let j = choose|j: int| 0 <= j < old(self).slots@.len() && #[trigger] old(self).slots@[j].0 == k;
                        assert(self.slots@[j].0 == k);
                    }
                }
                Ok(())
            },
            None => Err(UnicomError::new(UnicomErrorKind::ParameterInvalid, "unknown request id")),
        }
    }

    fn remove_at(&mut self, i: usize) -> (r: Option<Outcome>)
        requires
            old(self).wf(),
            i < old(self).slots@.len(),
        ensures
            final(self).wf(),
            final(self).issued() == old(self).issued(),
            final(self).next() == old(self).next(),
            r == old(self)@[old(self).slots@[i as int].0],
            final(self)@ == old(self)@.remove(old(self).slots@[i as int].0),
    {
        proof {
            assert(old(self).table@.contains_key(old(self).slots@[i as int].0));
        }
        let (id, slot) = self.slots.remove(i);
        self.table = Ghost(self.table@.remove(id));
        proof {
            assert forall|j: int| 0 <= j < self.slots@.len() implies #[trigger] self.table@.contains_key(self.slots@[j].0)
                && self.table@[self.slots@[j].0] == self.slots@[j].1 by {
                if j < i {
                    assert(self.slots@[j] == old(self).slots@[j]);
                } else {
                    assert(self.slots@[j] == old(self).slots@[j + 1]);
                }
            }
            assert forall|k: u64| self.table@.contains_key(k) implies exists|j: int|
                0 <= j < self.slots@.len() && #[trigger] self.slots@[j].0 == k by {
                let j = choose|j: int| 0 <= j < old(self).slots@.len() && #[trigger] old(self).slots@[j].0 == k;
                if j < i {
                    assert(self.slots@[j].0 == k);
                } else {
                    assert(j != i);
                    assert(self.slots@[j - 1].0 == k);
                }
            }
        }
        slot
    }

    /// Removes the slot of `id` and hands over its outcome: `Empty` when no
    /// outcome has arrived, `NotFound` when there is no such slot.
    pub fn get(&mut self, id: u64) -> (r: Outcome)
        requires
            old(self).wf(),
        ensures
            final(self).wf(),
            final(self).issued() == old(self).issued(),
            final(self).next() == old(self).next(),
            final(self)@ == old(self)@.remove(id),
            stored_outcome(old(self)@, id) is Some ==> r == stored_outcome(old(self)@, id).unwrap(),
            old(self)@.contains_key(id) && old(self)@[id] is None ==> r is Err && r->Err_0.kind
                == UnicomErrorKind::Empty,
            !old(self)@.contains_key(id) ==> r is Err && r->Err_0.kind == UnicomErrorKind::NotFound,
    {
        match self.find(id) {
            Some(i) => match self.remove_at(i) {
                Some(o) => o,
                None => Err(UnicomError::new(UnicomErrorKind::Empty, "no outcome yet")),
            },
            None => {
                proof {
                    assert(self.table@.remove(id) =~= self.table@);
                }
                Err(UnicomError::new(UnicomErrorKind::NotFound, "unknown request id"))
            },
        }
    }

    /// Drops the slot of a request whose deadline passed; a late reply for
    /// it is then refused as an unknown id.
    pub fn cancel(&mut self, id: u64) -> (r: UnicomError)
        requires
            old(self).wf(),
        ensures
            final(self).wf(),
            final(self).issued() == old(self).issued(),
            final(self).next() == old(self).next(),
            final(self)@ == old(self)@.remove(id),
            r.kind == UnicomErrorKind::Timeout,
    {
        match self.find(id) {
            Some(i) => {
                self.remove_at(i);
            },
            None => {
                proof {
                    assert(self.table@.remove(id) =~= self.table@);
                }
            },
        }
        UnicomError::new(UnicomErrorKind::Timeout, "request timed out")
    }
}

/// Ids handed out by one table are strictly increasing, so none is handed
/// out twice during the table's life.
pub proof fn lemma_no_id_reuse(t: PendingController, i: int, j: int)
    requires
        t.wf(),
        0 <= i < j < t.issued().len(),
    ensures
        t.issued()[i] != t.issued()[j],
        t.issued()[j] < t.next(),
{
}

/// Once an outcome is stored for an id, a second response or error for it
/// is refused, the awaiter takes exactly the stored outcome, and taking it
/// removes the slot, so nothing more is accepted for that id.
pub proof fn lemma_single_outcome(m: Map<u64, Option<Outcome>>, id: u64, o: Outcome)
    requires
        accepts_outcome(m, id),
    ensures
        !accepts_outcome(m.insert(id, Some(o)), id),
        stored_outcome(m.insert(id, Some(o)), id) == Some(o),
        !m.insert(id, Some(o)).remove(id).contains_key(id),
        !accepts_outcome(m.insert(id, Some(o)).remove(id), id),
{
}

/// A request's life: a fresh id gets an empty slot that accepts one
/// outcome; once that outcome arrives the awaiter takes exactly it and the
/// slot is gone.
pub proof fn lemma_request_life(m: Map<u64, Option<Outcome>>, id: u64, o: Outcome)
    requires
        !m.contains_key(id),
    ensures
        accepts_outcome(m.insert(id, None), id),
        stored_outcome(m.insert(id, None).insert(id, Some(o)), id) == Some(o),
        !m.insert(id, None).insert(id, Some(o)).remove(id).contains_key(id),
{
}

/// A message that the read loop hands to its caller.
#[derive(Debug)]
pub enum UnicomMessage {
    Request { id: u64, data: UnicomRequest },
    Quit,
}

/// One step of a connector's read loop: replies and errors go to the pending
/// table and the loop goes on (`None`); a reply for an id that waits for none
/// (a late reply after a timeout) is dropped. Requests and `Quit` are handed
/// out.
pub fn absorb(pending: &mut PendingController, msg: UnixMessage) -> (r: Option<UnicomMessage>)
    requires
        old(pending).wf(),
    ensures
        final(pending).wf(),
        final(pending).issued() == old(pending).issued(),
        final(pending).next() == old(pending).next(),
        match msg {
            UnixMessage::Response { id, data } => r is None && final(pending)@ == if accepts_outcome(
                old(pending)@,
                id,
            ) {
                old(pending)@.insert(id, Some(Ok(data)))
            } else {
                old(pending)@
            },
            UnixMessage::Error { id, error } => r is None && final(pending)@ == if accepts_outcome(
                old(pending)@,
                id,
            ) {
                old(pending)@.insert(id, Some(Err(error)))
            } else {
                old(pending)@
            },
            UnixMessage::Request { id, data } => r == Some(UnicomMessage::Request { id, data })
                && final(pending)@ == old(pending)@,
            UnixMessage::Quit => r == Some(UnicomMessage::Quit) && final(pending)@ == old(pending)@,
        },
{
    match msg {
        UnixMessage::Response { id, data } => {
            let _ = pending.update(id, Ok(data));
            None
        },
        UnixMessage::Error { id, error } => {
            let _ = pending.update(id, Err(error));
            None
        },
        UnixMessage::Request { id, data } => Some(UnicomMessage::Request { id, data }),
        UnixMessage::Quit => Some(UnicomMessage::Quit),
    }
}

/// Ends a request once its awaiter wakes (`answered`) or its deadline passes:
/// the stored outcome, or `Timeout`; the slot is gone either way.
pub fn finish_request(pending: &mut PendingController, id: u64, answered: bool) -> (r: Outcome)
    requires
        old(pending).wf(),
    ensures
        final(pending).wf(),
        final(pending)@ == old(pending)@.remove(id),
        answered && stored_outcome(old(pending)@, id) is Some ==> r == stored_outcome(
            old(pending)@,
            id,
        ).unwrap(),
        answered && !old(pending)@.contains_key(id) ==> r is Err && r->Err_0.kind
            == UnicomErrorKind::NotFound,
        !answered ==> r is Err && r->Err_0.kind == UnicomErrorKind::Timeout,
{
    if answered {
        pending.get(id)
    } else {
        Err(pending.cancel(id))
    }
}

} // verus!
