//! The cancellation scheduler: the deadline-driven canceller each flow
//! (issue, replace) runs.
//!
//! The scheduler consumes two streams — request events and parachain
//! blocks — and keeps the open requests ordered by deadline, ties in
//! insertion order. When a block's height reaches the earliest deadline it
//! hands out the due requests for cancellation; a request leaves the
//! schedule when its cancellation is accepted (or found already executed)
//! or when its execution is observed, and a transient failure leaves it to
//! be retried at the next block.

use vstd::prelude::*;

use crate::types::RequestId;

verus! {

/// What the event stream reports about a request this vault owns.
#[derive(Debug)]
pub enum RequestEvent {
    /// The request was opened with the given cancellation deadline.
    Opened { id: RequestId, deadline: u32 },
    /// The request was executed; nothing is left to cancel.
    Executed { id: RequestId },
}

/// An open request awaiting execution or cancellation.
#[derive(Debug)]
pub struct ActiveRequest {
    pub id: RequestId,
    pub deadline: u32,
}

impl View for ActiveRequest {
    type V = (Seq<u8>, u32);

    open spec fn view(&self) -> (Seq<u8>, u32) {
        (self.id@, self.deadline)
    }
}

/// Deadlines never decrease along the schedule.
pub open spec fn sorted_by_deadline(s: Seq<(Seq<u8>, u32)>) -> bool {
    forall|i: int, j: int| 0 <= i < j < s.len() ==> s[i].1 <= s[j].1
}

/// The first index whose deadline lies strictly beyond `d`; the length if
/// there is none. On a sorted schedule this is both where a new request
/// with deadline `d` goes and how many requests a block of height `d`
/// makes due.
pub open spec fn boundary(s: Seq<(Seq<u8>, u32)>, d: u32) -> int
    decreases s.len(),
{
    if s.len() == 0 {
        0
    } else if s[0].1 > d {
        0
    } else {
        1 + boundary(s.drop_first(), d)
    }
}

/// Whether some entry carries the identifier `idv`.
pub open spec fn contains_id(s: Seq<(Seq<u8>, u32)>, idv: Seq<u8>) -> bool {
    exists|j: int| 0 <= j < s.len() && s[j].0 == idv
}

/// `s` with every entry for `idv` removed, in order.
pub open spec fn without_id(s: Seq<(Seq<u8>, u32)>, idv: Seq<u8>) -> Seq<(Seq<u8>, u32)>
    decreases s.len(),
{
    if s.len() == 0 {
        Seq::empty()
    } else {
        let w0 = without_id(s.drop_last(), idv);
        if s.last().0 == idv {
            w0
        } else {
            w0.push(s.last())
        }
    }
}

/// The identifiers of the entries, in order.
pub open spec fn entry_ids(s: Seq<(Seq<u8>, u32)>) -> Seq<Seq<u8>> {
    s.map_values(|p: (Seq<u8>, u32)| p.0)
}

/// The `Seq<u8>` views of a vector of request identifiers.
pub open spec fn request_id_views(s: Seq<RequestId>) -> Seq<Seq<u8>> {
    s.map_values(|r: RequestId| r@)
}

/// The identifiers a block of height `h` makes due for cancellation, in
/// ascending deadline order, equal deadlines in insertion order.
pub open spec fn due_ids(s: Seq<(Seq<u8>, u32)>, h: u32) -> Seq<Seq<u8>> {
    entry_ids(s.take(boundary(s, h)))
}

/// Where `boundary` points: everything before it is due at `d`, the entry
/// at it (if any) is not.
proof fn lemma_boundary(s: Seq<(Seq<u8>, u32)>, d: u32)
    ensures
        0 <= boundary(s, d) <= s.len(),
        forall|j: int| 0 <= j < boundary(s, d) ==> s[j].1 <= d,
        boundary(s, d) < s.len() ==> s[boundary(s, d)].1 > d,
    decreases s.len(),
{
    if s.len() > 0 && s[0].1 <= d {
        lemma_boundary(s.drop_first(), d);
        assert forall|j: int| 0 <= j < boundary(s, d) implies s[j].1 <= d by {
            if j > 0 {
                assert(s.drop_first()[j - 1] == s[j]);
            }
        }
        if boundary(s, d) < s.len() {
            assert(s.drop_first()[boundary(s, d) - 1] == s[boundary(s, d)]);
        }
    }
}

/// Removing an identifier keeps the schedule sorted, keeps only entries of
/// the schedule, drops every entry of the removed identifier and no other.
proof fn lemma_without_id_ok(s: Seq<(Seq<u8>, u32)>, idv: Seq<u8>)
    ensures
        sorted_by_deadline(s) ==> sorted_by_deadline(without_id(s, idv)),
        forall|j: int|
            0 <= j < without_id(s, idv).len() ==> s.contains(#[trigger] without_id(s, idv)[j]),
        !contains_id(without_id(s, idv), idv),
        forall|j: int|
            0 <= j < s.len() && s[j].0 != idv ==> without_id(s, idv).contains(#[trigger] s[j]),
    decreases s.len(),
{
    if s.len() > 0 {
        let s0 = s.drop_last();
        let x = s.last();
        lemma_without_id_ok(s0, idv);
        let w0 = without_id(s0, idv);
        let w = without_id(s, idv);
        assert(forall|j: int| 0 <= j < s0.len() ==> s0[j] == s[j]);
        assert(forall|j: int| 0 <= j < s0.len() && s0.contains(#[trigger] s0[j]) ==> s.contains(
            s0[j],
        ));
        assert forall|j: int| 0 <= j < w.len() implies s.contains(#[trigger] w[j]) by {
            if x.0 != idv && j == w.len() - 1 {
                assert(w[j] == x);
                assert(s[s.len() - 1] == x);
            } else {
                assert(w0.contains(w[j]));
                let l = choose|l: int| 0 <= l < s0.len() && s0[l] == w[j];
                assert(s[l] == w[j]);
            }
        }
        if sorted_by_deadline(s) {
            assert(sorted_by_deadline(s0));
            if x.0 != idv {
                assert forall|i: int, j: int| 0 <= i < j < w.len() implies w[i].1 <= w[j].1 by {
                    if j == w.len() - 1 {
                        assert(w[j] == x);
                        assert(w0.contains(w[i]));
                        let l = choose|l: int| 0 <= l < s0.len() && s0[l] == w[i];
                        assert(s[l].1 <= s[s.len() - 1].1);
                    }
                }
            }
        }
        if contains_id(w, idv) {
            let j = choose|j: int| 0 <= j < w.len() && w[j].0 == idv;
            if x.0 != idv && j == w.len() - 1 {
            } else {
                assert(w0.contains(w[j]));
            }
        }
        assert forall|j: int|
            0 <= j < s.len() && s[j].0 != idv implies w.contains(#[trigger] s[j]) by {
            if j < s0.len() {
                assert(w0.contains(s0[j]));
                let l = choose|l: int| 0 <= l < w0.len() && w0[l] == s[j];
                if x.0 != idv {
                    assert(w[l] == s[j]);
                } else {
                    assert(w[l] == s[j]);
                }
            } else {
                assert(s[j] == x);
                assert(w[w.len() - 1] == x);
            }
        }
    }
}

/// The schedule a startup reconciliation builds from the open requests the
/// parachain reports, in report order.
pub open spec fn scheduled_from(reqs: Seq<(Seq<u8>, u32)>) -> Seq<(Seq<u8>, u32)>
    decreases reqs.len(),
{
    if reqs.len() == 0 {
        Seq::empty()
    } else {
        let t = scheduled_from(reqs.drop_last());
        t.insert(boundary(t, reqs.last().1), reqs.last())
    }
}

/// The per-flow cancellation scheduler: the open requests of this vault,
/// ordered by deadline, insertion order breaking ties.
#[derive(Debug)]
pub struct CancellationScheduler {
    active: Vec<ActiveRequest>,
}

impl View for CancellationScheduler {
    type V = Seq<(Seq<u8>, u32)>;

    closed spec fn view(&self) -> Seq<(Seq<u8>, u32)> {
        self.active@.map_values(|r: ActiveRequest| r@)
    }
}

impl CancellationScheduler {
    pub open spec fn wf(&self) -> bool {
        sorted_by_deadline(self@)
    }

    /// An idle scheduler: no open requests.
    pub fn new() -> (s: CancellationScheduler)
        ensures
            s@ =~= Seq::<(Seq<u8>, u32)>::empty(),
            s.wf(),
    {
        CancellationScheduler { active: Vec::new() }
    }

    /// How many requests are open.
    pub fn len(&self) -> (n: usize)
        ensures
            n == self@.len(),
    {
        self.active.len()
    }

    /// The next wake-up target: the earliest deadline among the open
    /// requests, if any.
    pub fn next_deadline(&self) -> (r: Option<u32>)
        requires
            self.wf(),
        ensures
            r is Some <==> self@.len() > 0,
            r matches Some(d) ==> d == self@[0].1 && forall|j: int|
                0 <= j < self@.len() ==> d <= #[trigger] self@[j].1,
    {
        if self.active.len() == 0 {
            None
        } else {
            Some(self.active[0].deadline)
        }
    }

    /// Fold one request event into the schedule: an opened request joins
    /// behind every request with an earlier or equal deadline; an executed
    /// request leaves entirely.
    pub fn process_event(&mut self, event: RequestEvent)
        requires
            old(self).wf(),
        ensures
            final(self).wf(),
            event matches RequestEvent::Opened { id, deadline } ==> final(self)@ == old(
                self,
            )@.insert(boundary(old(self)@, deadline), (id@, deadline)),
            event matches RequestEvent::Executed { id } ==> final(self)@ == without_id(
                old(self)@,
                id@,
            ),
    {
        match event {
            RequestEvent::Opened { id, deadline } => {
                self.open_request(id, deadline);
            },
            RequestEvent::Executed { id } => {
                self.complete(&id);
            },
        }
    }

    /// Insert an opened request at its deadline position.
    pub fn open_request(&mut self, id: RequestId, deadline: u32)
        requires
            old(self).wf(),
        ensures
            final(self).wf(),
            final(self)@ == old(self)@.insert(boundary(old(self)@, deadline), (id@, deadline)),
    {
        let ghost va = self@;
        let n = self.active.len();
        let mut pos: usize = 0;
        while pos < n && self.active[pos].deadline <= deadline
            invariant
                n == self.active.len(),
                self@ == va,
                self.wf(),
                pos <= n,
                forall|j: int| 0 <= j < pos ==> va[j].1 <= deadline,
            decreases n - pos,
        {
            pos += 1;
        }
        proof {
            lemma_boundary(va, deadline);
            // pos is the boundary: everything before is <= deadline, and
            // either pos is the end or the entry there is beyond it
            if pos < va.len() {
                assert(va[pos as int].1 > deadline);
            }
            if boundary(va, deadline) < pos {
                assert(va[boundary(va, deadline)].1 <= deadline);
            }
            if (pos as int) < boundary(va, deadline) {
                assert(va[pos as int].1 <= deadline);
            }
            assert(pos as int == boundary(va, deadline));
        }
        let req = ActiveRequest { id, deadline };
        self.active.insert(pos, req);
        proof {
            let after = self@;
            va.insert_ensures(pos as int, (req.id@, req.deadline));
            assert(after =~= va.insert(pos as int, (req.id@, req.deadline)));
            assert forall|i: int, j: int| 0 <= i < j < after.len() implies after[i].1
                <= after[j].1 by {
                lemma_boundary(va, deadline);
            }
        }
    }

    /// Drop every entry of the given request, wherever it stands: the
    /// request was executed, cancelled, or reported already done.
    pub fn complete(&mut self, id: &RequestId)
        requires
            old(self).wf(),
        ensures
            final(self).wf(),
            final(self)@ == without_id(old(self)@, id@),
            !contains_id(final(self)@, id@),
    {
        let ghost va = self@;
        let n = self.active.len();
        let mut kept: Vec<ActiveRequest> = Vec::new();
        let mut i: usize = 0;
        while i < n
            invariant
                n == self.active.len(),
                self@ == va,
                i <= n,
                kept@.map_values(|r: ActiveRequest| r@) =~= without_id(va.take(i as int), id@),
            decreases n - i,
        {
            proof {
                assert(va.take(i as int + 1).drop_last() =~= va.take(i as int));
                assert(va.take(i as int + 1).last() == va[i as int]);
            }
            if !self.active[i].id.eq_id(id) {
                let r = ActiveRequest {
                    id: self.active[i].id.clone_id(),
                    deadline: self.active[i].deadline,
                };
                kept.push(r);
            }
            i += 1;
        }
        proof {
            assert(va.take(n as int) =~= va);
        }
        self.active = kept;
        proof {
            lemma_without_id_ok(va, id@);
        }
    }

    /// The requests a block of height `height` makes due, in the order
    /// their cancellations are to be attempted: ascending deadline, ties
    /// in insertion order. The schedule itself is untouched; an entry
    /// leaves only through `complete` or `apply_cancel_outcome`, so a
    /// cancellation that fails transiently is retried at the next block.
    pub fn due_requests(&self, height: u32) -> (r: Vec<RequestId>)
        requires
            self.wf(),
        ensures
            request_id_views(r@) == due_ids(self@, height),
    {
        let ghost va = self@;
        let n = self.active.len();
        let mut out: Vec<RequestId> = Vec::new();
        let mut i: usize = 0;
        while i < n && self.active[i].deadline <= height
            invariant
                n == self.active.len(),
                self@ == va,
                self.wf(),
                i <= n,
                forall|j: int| 0 <= j < i ==> va[j].1 <= height,
                out@.len() == i,
                request_id_views(out@) =~= entry_ids(va.take(i as int)),
            decreases n - i,
        {
            let id = self.active[i].id.clone_id();
            proof {
                assert(va[i as int] == (self.active@[i as int].id@, self.active@[i as int].deadline));
            }
            let ghost prev = out@;
            out.push(id);
            proof {
                assert(out@ == prev.push(id));
                assert(out@.len() == i + 1);
                assert(va.len() == n);
                assert(request_id_views(out@)[i as int] == va[i as int].0);
                assert forall|j: int| 0 <= j < i implies request_id_views(out@)[j] == entry_ids(
                    va.take(i as int + 1),
                )[j] by {
                    assert(out@[j] == prev[j]);
                    assert(request_id_views(prev)[j] == entry_ids(va.take(i as int))[j]);
                    assert(va.take(i as int)[j] == va[j]);
                    assert(va.take(i as int + 1)[j] == va[j]);
                }
                assert(request_id_views(out@) =~= entry_ids(va.take(i as int + 1)));
            }
            i += 1;
        }
        proof {
            lemma_boundary(va, height);
            if i < va.len() {
                assert(va[i as int].1 > height);
            }
            if boundary(va, height) < i {
                assert(va[boundary(va, height)].1 <= height);
            }
            if (i as int) < boundary(va, height) {
                assert(va[i as int].1 <= height);
            }
            assert(i as int == boundary(va, height));
        }
        out
    }

    /// Fold the outcome of one attempted cancellation back in: acceptance
    /// and "already executed" close the request; a transient failure
    /// leaves it for the next block.
    pub fn apply_cancel_outcome(&mut self, id: &RequestId, outcome: CancelOutcome)
        requires
            old(self).wf(),
        ensures
            final(self).wf(),
            !(outcome is TransientFailure) ==> final(self)@ == without_id(old(self)@, id@)
                && !contains_id(final(self)@, id@),
            outcome is TransientFailure ==> final(self)@ == old(self)@,
    {
        match outcome {
            CancelOutcome::Submitted => self.complete(id),
            CancelOutcome::AlreadyCompleted => self.complete(id),
            CancelOutcome::TransientFailure => {},
        }
    }

    /// The schedule reconciliation builds at startup from the open
    /// requests the parachain reports.
    pub fn from_open_requests(reqs: Vec<ActiveRequest>) -> (s: CancellationScheduler)
        ensures
            s.wf(),
            s@ == scheduled_from(reqs@.map_values(|r: ActiveRequest| r@)),
    {
        let ghost all = reqs@.map_values(|r: ActiveRequest| r@);
        let n = reqs.len();
        let mut out = CancellationScheduler::new();
        let mut i: usize = 0;
        while i < n
            invariant
                n == reqs.len(),
                all == reqs@.map_values(|r: ActiveRequest| r@),
                all.len() == n,
                i <= n,
                out.wf(),
                out@ == scheduled_from(all.take(i as int)),
            decreases n - i,
        {
            proof {
                assert(all.take(i as int + 1).drop_last() =~= all.take(i as int));
                assert(all.take(i as int + 1).last() == all[i as int]);
            }
            let id = reqs[i].id.clone_id();
            let deadline = reqs[i].deadline;
            out.open_request(id, deadline);
            i += 1;
        }
        proof {
            assert(all.take(n as int) =~= all);
        }
        out
    }
}

/// How the parachain answered one cancel extrinsic.
#[derive(Clone, Copy, Debug, PartialEq, Eq, Structural)]
pub enum CancelOutcome {
    /// The cancellation was accepted.
    Submitted,
    /// The parachain reported the request already executed or cancelled.
    AlreadyCompleted,
    /// A transient failure; the request stays and is retried.
    TransientFailure,
}

/// Scheduler liveness: every open request whose deadline a block reaches
/// is among the cancellations that block makes due.
pub proof fn lemma_scheduler_liveness(s: Seq<(Seq<u8>, u32)>, h: u32, j: int)
    requires
        sorted_by_deadline(s),
        0 <= j < s.len(),
        s[j].1 <= h,
    ensures
        due_ids(s, h).contains(s[j].0),
{
    lemma_boundary(s, h);
    if boundary(s, h) <= j {
        assert(s[boundary(s, h)].1 <= s[j].1);
    }
    assert(j < boundary(s, h));
    assert(due_ids(s, h)[j] == s[j].0);
}

/// Scheduler safety: once a request has left the schedule — its execution
/// was observed, or its cancellation went through — no block makes it due
/// again, so no further cancel is issued for it.
pub proof fn lemma_scheduler_safety(s: Seq<(Seq<u8>, u32)>, idv: Seq<u8>, h: u32)
    requires
        !contains_id(s, idv),
    ensures
        !due_ids(s, h).contains(idv),
{
    lemma_boundary(s, h);
    if due_ids(s, h).contains(idv) {
        let j = choose|j: int| 0 <= j < due_ids(s, h).len() && due_ids(s, h)[j] == idv;
        assert(s[j].0 == idv);
    }
}

} // verus!
