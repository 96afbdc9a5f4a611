//! The set of issue requests currently assigned to this vault, and the
//! reactor decisions that maintain it from the parachain's issue events.

use vstd::prelude::*;

use crate::scheduler::RequestEvent;
use crate::types::{AccountId, RequestId};
use crate::vaults::distinct_seq;

verus! {

/// `s` without every occurrence of `idv`, in order.
pub open spec fn without_request(s: Seq<Seq<u8>>, idv: Seq<u8>) -> Seq<Seq<u8>>
    decreases s.len(),
{
    if s.len() == 0 {
        Seq::empty()
    } else {
        let w0 = without_request(s.drop_last(), idv);
        if s.last() == idv {
            w0
        } else {
            w0.push(s.last())
        }
    }
}

/// Removing an identifier keeps the rest, in order and without repeats.
proof fn lemma_without_request_ok(s: Seq<Seq<u8>>, idv: Seq<u8>)
    ensures
        distinct_seq(s) ==> distinct_seq(without_request(s, idv)),
        !without_request(s, idv).contains(idv),
        forall|x: Seq<u8>|
            x != idv ==> (#[trigger] without_request(s, idv).contains(x) <==> s.contains(x)),
    decreases s.len(),
{
    if s.len() > 0 {
        let s0 = s.drop_last();
        let x = s.last();
        lemma_without_request_ok(s0, idv);
        let w0 = without_request(s0, idv);
        let w = without_request(s, idv);
        assert(s =~= s0.push(x));
        if x != idv {
            assert(w == w0.push(x));
            assert(w.last() == x);
            if distinct_seq(s) {
                assert(distinct_seq(s0));
                assert forall|i: int, j: int| 0 <= i < j < w.len() implies w[i] != w[j] by {
                    if j == w.len() - 1 {
                        assert(w0.contains(w0[i]));
                        if x == w0[i] {
                            assert(s0.contains(x));
                            let l = choose|l: int| 0 <= l < s0.len() && s0[l] == x;
                            assert(s[l] == s[s.len() - 1]);
                        }
                    }
                }
            }
            if w.contains(idv) {
                let j = choose|j: int| 0 <= j < w.len() && w[j] == idv;
                assert(j < w0.len());
                assert(w0.contains(idv));
            }
            assert forall|y: Seq<u8>|
                y != idv implies (#[trigger] w.contains(y) <==> s.contains(y)) by {
                if w.contains(y) {
                    let j = choose|j: int| 0 <= j < w.len() && w[j] == y;
                    if j < w0.len() {
                        assert(w0.contains(y));
                        let l = choose|l: int| 0 <= l < s0.len() && s0[l] == y;
                        assert(s[l] == y);
                    } else {
                        assert(s[s.len() - 1] == y);
                    }
                }
                if s.contains(y) {
                    let j = choose|j: int| 0 <= j < s.len() && s[j] == y;
                    if j < s0.len() {
                        assert(s0.contains(y));
                        assert(w0.contains(y));
                        let l = choose|l: int| 0 <= l < w0.len() && w0[l] == y;
                        assert(w[l] == y);
                    } else {
                        assert(y == x);
                        assert(w.last() == y);
                    }
                }
            }
        } else {
            assert(w == w0);
            assert forall|y: Seq<u8>|
                y != idv implies (#[trigger] w.contains(y) <==> s.contains(y)) by {
                if w.contains(y) {
                    let l = choose|l: int| 0 <= l < s0.len() && s0[l] == y;
                    assert(s[l] == y);
                }
                if s.contains(y) {
                    let j = choose|j: int| 0 <= j < s.len() && s[j] == y;
                    assert(j < s0.len());
                    assert(s0.contains(y));
                }
            }
        }
    }
}

/// The issue requests currently relevant to this vault: a set of request
/// identifiers, shared by the issue listeners and the issue executor.
#[derive(Debug)]
pub struct IssueRequests {
    ids: Vec<RequestId>,
}

impl View for IssueRequests {
    type V = Seq<Seq<u8>>;

    closed spec fn view(&self) -> Seq<Seq<u8>> {
        self.ids@.map_values(|r: RequestId| r@)
    }
}

impl Default for IssueRequests {
    /// The empty set.
    fn default() -> (s: IssueRequests)
        ensures
            s@ =~= Seq::<Seq<u8>>::empty(),
            s.wf(),
    {
        IssueRequests { ids: Vec::new() }
    }
}

impl IssueRequests {
    pub open spec fn wf(&self) -> bool {
        distinct_seq(self@)
    }

    /// The empty set.
    pub fn new() -> (s: IssueRequests)
        ensures
            s@ =~= Seq::<Seq<u8>>::empty(),
            s.wf(),
    {
        IssueRequests { ids: Vec::new() }
    }

    /// How many issue requests are tracked.
    pub fn len(&self) -> (n: usize)
        ensures
            n == self@.len(),
    {
        self.ids.len()
    }

    /// Whether the identifier is tracked.
    pub fn contains(&self, id: &RequestId) -> (r: bool)
        ensures
            r == self@.contains(id@),
    {
        let n = self.ids.len();
        let mut i: usize = 0;
        while i < n
            invariant
                n == self.ids.len(),
                i <= n,
                forall|j: int| 0 <= j < i ==> self@[j] != id@,
            decreases n - i,
        {
            if self.ids[i].eq_id(id) {
                proof {
                    assert(self@[i as int] == id@);
                }
                return true;
            }
            i += 1;
        }
        proof {
            if self@.contains(id@) {
                let j = choose|j: int| 0 <= j < self@.len() && self@[j] == id@;
                assert(self@[j] != id@);
            }
        }
        false
    }

    /// Track an identifier; one already tracked stays tracked once.
    pub fn insert(&mut self, id: RequestId)
        requires
            old(self).wf(),
        ensures
            final(self).wf(),
            final(self)@ == (if old(self)@.contains(id@) {
                old(self)@
            } else {
                old(self)@.push(id@)
            }),
            final(self)@.contains(id@),
    {
        if !self.contains(&id) {
            let ghost before = self@;
            self.ids.push(id);
            proof {
                assert(self@ =~= before.push(id@));
                assert(self@.last() == id@);
                assert forall|i: int, j: int| 0 <= i < j < self@.len() implies self@[i]
                    != self@[j] by {
                    if j == self@.len() - 1 {
                        assert(before.contains(before[i]));
                    }
                }
            }
        }
    }

    /// Stop tracking an identifier.
    pub fn remove(&mut self, id: &RequestId)
        requires
            old(self).wf(),
        ensures
            final(self).wf(),
            final(self)@ == without_request(old(self)@, id@),
            !final(self)@.contains(id@),
            forall|x: Seq<u8>| x != id@ ==> (final(self)@.contains(x) <==> old(self)@.contains(x)),
    {
        let ghost orig = self@;
        let n = self.ids.len();
        let mut kept: Vec<RequestId> = Vec::new();
        let mut i: usize = 0;
        while i < n
            invariant
                n == self.ids.len(),
                self@ == orig,
                i <= n,
                kept@.map_values(|r: RequestId| r@) =~= without_request(orig.take(i as int), id@),
            decreases n - i,
        {
            proof {
                assert(orig.take(i as int + 1).drop_last() =~= orig.take(i as int));
                assert(orig.take(i as int + 1).last() == orig[i as int]);
            }
            if !self.ids[i].eq_id(id) {
                let kept_id = self.ids[i].clone_id();
                kept.push(kept_id);
            }
            i += 1;
        }
        proof {
            assert(orig.take(n as int) =~= orig);
        }
        self.ids = kept;
        proof {
            lemma_without_request_ok(orig, id@);
        }
    }
}

/// A parachain issue event, as the reactor receives it.
#[derive(Debug)]
pub enum IssueEvent {
    /// An issue was requested from the given vault, cancellable from the
    /// given deadline on.
    Requested { id: RequestId, vault_id: AccountId, deadline: u32 },
    /// The issue was executed.
    Executed { id: RequestId },
    /// The issue was cancelled.
    Cancelled { id: RequestId },
}

/// One step of the issue reactor: keep the tracked set in line with the
/// event and say what, if anything, to send to the cancellation
/// scheduler. A request joins only when this vault is the assignee; an
/// execution leaves the set and tells the scheduler; a cancellation only
/// leaves the set, the scheduler having acted already.
pub fn handle_issue_event(set: &mut IssueRequests, our_vault: &AccountId, event: IssueEvent) -> (r:
    Option<RequestEvent>)
    requires
        old(set).wf(),
    ensures
        final(set).wf(),
        event matches IssueEvent::Requested { id, vault_id, deadline } ==> {
            &&& (vault_id@ == our_vault@ ==> final(set)@.contains(id@) && (r matches Some(
                RequestEvent::Opened { id: oid, deadline: d },
            ) && oid@ == id@ && d == deadline))
            &&& (vault_id@ != our_vault@ ==> final(set)@ == old(set)@ && r is None)
        },
        event matches IssueEvent::Executed { id } ==> !final(set)@.contains(id@) && (r matches Some(
            RequestEvent::Executed { id: eid },
        ) && eid@ == id@),
        event matches IssueEvent::Cancelled { id } ==> !final(set)@.contains(id@) && r is None,
{
    match event {
        IssueEvent::Requested { id, vault_id, deadline } => {
            if vault_id.eq_id(our_vault) {
                let opened = id.clone_id();
                set.insert(id);
                Some(RequestEvent::Opened { id: opened, deadline })
            } else {
                None
            }
        },
        IssueEvent::Executed { id } => {
            set.remove(&id);
            Some(RequestEvent::Executed { id })
        },
        IssueEvent::Cancelled { id } => {
            set.remove(&id);
            None
        },
    }
}

} // verus!
