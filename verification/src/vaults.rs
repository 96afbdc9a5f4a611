//! The vault registry kept by the staked relayer: a mapping from Bitcoin
//! output script digests to the parachain identity of the vault that owns
//! them, and the per-transaction matching the theft detector does on it.
//!
//! A vault's wallet grows over time, so one account may stand under many
//! addresses. The registry is a vector of pairs with pairwise-distinct
//! addresses; its model is a first-match lookup over the pair sequence.

use vstd::prelude::*;

use crate::types::{AccountId, BtcAddress, H256Le};

verus! {

/// The value stored under key `k`, by first match.
pub open spec fn lookup(s: Seq<(Seq<u8>, Seq<u8>)>, k: Seq<u8>) -> Option<Seq<u8>>
    decreases s.len(),
{
    if s.len() == 0 {
        None
    } else if s[0].0 == k {
        Some(s[0].1)
    } else {
        lookup(s.drop_first(), k)
    }
}

/// The value stored under key `k` by the latest of possibly several
/// entries, as filling a map from a list of pairs leaves it.
pub open spec fn latest(s: Seq<(Seq<u8>, Seq<u8>)>, k: Seq<u8>) -> Option<Seq<u8>>
    decreases s.len(),
{
    if s.len() == 0 {
        None
    } else if s.last().0 == k {
        Some(s.last().1)
    } else {
        latest(s.drop_last(), k)
    }
}

/// Pairwise-distinct keys.
pub open spec fn distinct_keys(s: Seq<(Seq<u8>, Seq<u8>)>) -> bool {
    forall|i: int, j: int| 0 <= i < j < s.len() ==> s[i].0 != s[j].0
}

proof fn lemma_lookup_at_index(s: Seq<(Seq<u8>, Seq<u8>)>, k: Seq<u8>, j: int)
    requires
        distinct_keys(s),
        0 <= j < s.len(),
        s[j].0 == k,
    ensures
        lookup(s, k) == Some(s[j].1),
    decreases s.len(),
{
    if j == 0 {
    } else {
        assert(s[0].0 != k);
        assert(s.drop_first()[j - 1] == s[j]);
        lemma_lookup_at_index(s.drop_first(), k, j - 1);
    }
}

proof fn lemma_lookup_absent(s: Seq<(Seq<u8>, Seq<u8>)>, k: Seq<u8>)
    requires
        forall|j: int| 0 <= j < s.len() ==> s[j].0 != k,
    ensures
        lookup(s, k) is None,
    decreases s.len(),
{
    if s.len() > 0 {
        assert(forall|j: int|
            0 <= j < s.drop_first().len() ==> s.drop_first()[j] == s[j + 1]);
        lemma_lookup_absent(s.drop_first(), k);
    }
}

proof fn lemma_lookup_found_index(s: Seq<(Seq<u8>, Seq<u8>)>, k: Seq<u8>)
    requires
        lookup(s, k) is Some,
    ensures
        exists|j: int| 0 <= j < s.len() && s[j].0 == k,
    decreases s.len(),
{
    if s.len() > 0 {
        if s[0].0 == k {
        } else {
            lemma_lookup_found_index(s.drop_first(), k);
            let j = choose|j: int| 0 <= j < s.drop_first().len() && s.drop_first()[j].0 == k;
            assert(s[j + 1].0 == k);
        }
    }
}

/// The registry of registered vaults: Bitcoin address to vault identity.
#[derive(Debug)]
pub struct Vaults {
    entries: Vec<(BtcAddress, AccountId)>,
}

impl View for Vaults {
    type V = Seq<(Seq<u8>, Seq<u8>)>;

    closed spec fn view(&self) -> Seq<(Seq<u8>, Seq<u8>)> {
        self.entries@.map_values(|p: (BtcAddress, AccountId)| (p.0@, p.1@))
    }
}

impl Default for Vaults {
    /// The empty registry.
    fn default() -> (v: Vaults)
        ensures
            v@ =~= Seq::<(Seq<u8>, Seq<u8>)>::empty(),
            v.wf(),
    {
        Vaults { entries: Vec::new() }
    }
}

impl Vaults {
    pub open spec fn wf(&self) -> bool {
        distinct_keys(self@)
    }

    /// The registry holding the given pairs; of entries sharing an
    /// address, the latest wins, as when a map is filled from a list.
    pub fn from(vaults: Vec<(BtcAddress, AccountId)>) -> (v: Vaults)
        ensures
            v.wf(),
            forall|k: Seq<u8>|
                lookup(v@, k) == latest(
                    vaults@.map_values(|p: (BtcAddress, AccountId)| (p.0@, p.1@)),
                    k,
                ),
    {
        let ghost all = vaults@.map_values(|p: (BtcAddress, AccountId)| (p.0@, p.1@));
        let n = vaults.len();
        let mut i: usize = 0;
        let mut out = Vaults { entries: Vec::new() };
        while i < n
            invariant
                n == vaults.len(),
                all == vaults@.map_values(|p: (BtcAddress, AccountId)| (p.0@, p.1@)),
                all.len() == n,
                i <= n,
                out.wf(),
                forall|k: Seq<u8>| lookup(out@, k) == latest(all.take(i as int), k),
            decreases n - i,
        {
            let addr = vaults[i].0.clone_addr();
            let id = vaults[i].1.clone_id();
            proof {
                assert(all[i as int] == (addr@, id@));
            }
            let ghost before = out@;
            out.write(addr, id);
            proof {
                assert(all.take(i as int + 1).drop_last() =~= all.take(i as int));
                assert(all.take(i as int + 1).last() == all[i as int]);
                assert forall|k: Seq<u8>| lookup(out@, k) == latest(all.take(i as int + 1), k) by {
                    if k == all[i as int].0 {
                        assert(lookup(out@, k) == Some(all[i as int].1));
                    } else {
                        assert(lookup(out@, k) == lookup(before, k));
                    }
                }
            }
            i += 1;
        }
        proof {
            assert(all.take(n as int) =~= all);
        }
        out
    }

    /// Store `value` under `key`, replacing what an earlier registration
    /// put there; every other address keeps its vault.
    pub fn write(&mut self, key: BtcAddress, value: AccountId)
        requires
            old(self).wf(),
        ensures
            final(self).wf(),
            lookup(final(self)@, key@) == Some(value@),
            forall|k: Seq<u8>| k != key@ ==> lookup(final(self)@, k) == lookup(old(self)@, k),
    {
        let n = self.entries.len();
        let mut i: usize = 0;
        while i < n
            invariant
                n == self.entries.len(),
                i <= n,
                self@ == old(self)@,
                self.wf(),
                forall|j: int| 0 <= j < i ==> self@[j].0 != key@,
            decreases n - i,
        {
            if self.entries[i].0.eq_addr(&key) {
                let ghost before = self@;
                self.entries.remove(i);
                self.entries.insert(i, (key, value));
                proof {
                    let after = self@;
                    assert(after =~= before.update(i as int, (key@, value@)));
                    assert(before[i as int].0 == key@);
                    assert(forall|j: int| 0 <= j < after.len() ==> after[j].0 == before[j].0);
                    assert(distinct_keys(after));
                    lemma_lookup_at_index(after, key@, i as int);
                    assert forall|k: Seq<u8>| k != key@ implies lookup(after, k) == lookup(
                        before,
                        k,
                    ) by {
                        lemma_lookup_agree(before, after, k);
                    }
                }
                return ;
            }
            i += 1;
        }
        let ghost before = self@;
        self.entries.push((key, value));
        proof {
            let after = self@;
            assert(after =~= before.push((key@, value@)));
            assert(forall|j: int| 0 <= j < before.len() ==> after[j] == before[j]);
            assert(distinct_keys(after));
            lemma_lookup_at_index(after, key@, before.len() as int);
            assert forall|k: Seq<u8>| k != key@ implies lookup(after, k) == lookup(before, k) by {
                lemma_lookup_agree(before, after, k);
            }
        }
    }

    /// The identity of the vault registered under `addr`, if any.
    pub fn contains_key(&self, addr: &BtcAddress) -> (r: Option<AccountId>)
        requires
            self.wf(),
        ensures
            r matches Some(id) ==> lookup(self@, addr@) == Some(id@),
            r is None ==> lookup(self@, addr@) is None,
    {
        let n = self.entries.len();
        let mut i: usize = 0;
        while i < n
            invariant
                n == self.entries.len(),
                i <= n,
                self.wf(),
                forall|j: int| 0 <= j < i ==> self@[j].0 != addr@,
            decreases n - i,
        {
            if self.entries[i].0.eq_addr(addr) {
                let id = self.entries[i].1.clone_id();
                proof {
                    lemma_lookup_at_index(self@, addr@, i as int);
                }
                return Some(id);
            }
            i += 1;
        }
        proof {
            lemma_lookup_absent(self@, addr@);
        }
        None
    }
}

/// Lookup of `k` agrees between two registries that share their keys in a
/// common prefix, hold the same value wherever the key is `k`, and whose
/// extra entries are not keyed by `k`.
proof fn lemma_lookup_agree(
    before: Seq<(Seq<u8>, Seq<u8>)>,
    after: Seq<(Seq<u8>, Seq<u8>)>,
    k: Seq<u8>,
)
    requires
        before.len() <= after.len(),
        forall|j: int| 0 <= j < before.len() ==> after[j].0 == before[j].0,
        forall|j: int| before.len() <= j < after.len() ==> after[j].0 != k,
        forall|j: int| 0 <= j < before.len() && before[j].0 == k ==> after[j].1 == before[j].1,
        distinct_keys(before),
        distinct_keys(after),
    ensures
        lookup(after, k) == lookup(before, k),
{
    if exists|j: int| 0 <= j < before.len() && before[j].0 == k {
        let j = choose|j: int| 0 <= j < before.len() && before[j].0 == k;
        lemma_lookup_at_index(before, k, j);
        lemma_lookup_at_index(after, k, j);
    } else {
        lemma_lookup_absent(before, k);
        lemma_lookup_absent(after, k);
    }
}

/// `s` with every entry whose vault identity is `idv` removed, in order.
pub open spec fn without_vault(s: Seq<(Seq<u8>, Seq<u8>)>, idv: Seq<u8>) -> Seq<(Seq<u8>, Seq<u8>)>
    decreases s.len(),
{
    if s.len() == 0 {
        Seq::empty()
    } else {
        let w0 = without_vault(s.drop_last(), idv);
        if s.last().1 == idv {
            w0
        } else {
            w0.push(s.last())
        }
    }
}

/// How a first-match lookup behaves on a sequence extended at the back.
proof fn lemma_lookup_push(s: Seq<(Seq<u8>, Seq<u8>)>, x: (Seq<u8>, Seq<u8>), k: Seq<u8>)
    ensures
        lookup(s.push(x), k) == (if lookup(s, k) is Some {
            lookup(s, k)
        } else if x.0 == k {
            Some(x.1)
        } else {
            None
        }),
    decreases s.len(),
{
    if s.len() == 0 {
        assert(s.push(x)[0] == x);
        assert(s.push(x).drop_first() =~= Seq::<(Seq<u8>, Seq<u8>)>::empty());
    } else {
        assert(s.push(x)[0] == s[0]);
        assert(s.push(x).drop_first() =~= s.drop_first().push(x));
        lemma_lookup_push(s.drop_first(), x, k);
    }
}

/// Removing a vault keeps the keys distinct, keeps only entries of `s`,
/// and masks exactly the lookups that found `idv`.
proof fn lemma_without_vault_ok(s: Seq<(Seq<u8>, Seq<u8>)>, idv: Seq<u8>)
    requires
        distinct_keys(s),
    ensures
        distinct_keys(without_vault(s, idv)),
        forall|j: int|
            0 <= j < without_vault(s, idv).len() ==> s.contains(
                #[trigger] without_vault(s, idv)[j],
            ),
        forall|k: Seq<u8>|
            #[trigger] lookup(without_vault(s, idv), k) == (if lookup(s, k) == Some(idv) {
                None::<Seq<u8>>
            } else {
                lookup(s, k)
            }),
    decreases s.len(),
{
    if s.len() == 0 {
    } else {
        let s0 = s.drop_last();
        let x = s.last();
        assert(s =~= s0.push(x));
        assert(distinct_keys(s0));
        lemma_without_vault_ok(s0, idv);
        let w0 = without_vault(s0, idv);
        assert(forall|j: int| 0 <= j < s0.len() ==> s.contains(#[trigger] s0[j]));
        assert forall|k: Seq<u8>| true implies #[trigger] lookup(without_vault(s, idv), k) == (
        if lookup(s, k) == Some(idv) {
            None::<Seq<u8>>
        } else {
            lookup(s, k)
        }) by {
            lemma_lookup_push(s0, x, k);
            if lookup(s0, k) is Some && x.0 == k {
                lemma_lookup_found_index(s0, k);
                let j = choose|j: int| 0 <= j < s0.len() && s0[j].0 == k;
                assert(s[j] == s0[j]);
                assert(s[s.len() - 1] == x);
                assert(false);
            }
            if x.1 != idv {
                lemma_lookup_push(w0, x, k);
            }
        }
        if x.1 != idv {
            assert forall|i: int, j: int|
                0 <= i < j < without_vault(s, idv).len() implies without_vault(s, idv)[i].0
                != without_vault(s, idv)[j].0 by {
                let w = without_vault(s, idv);
                assert(w == w0.push(x));
                if j < w0.len() {
                } else {
                    assert(w[j] == x);
                    assert(s0.contains(w0[i]));
                    let l = choose|l: int| 0 <= l < s0.len() && s0[l] == w0[i];
                    assert(s0[l].0 != x.0);
                }
            }
        }
    }
}

impl Vaults {
    /// Remove every address belonging to vault `id`: what observing the
    /// vault's deregistration does to the registry. Afterwards no address
    /// resolves to `id`, and every other vault keeps all its addresses.
    pub fn deregister(&mut self, id: &AccountId)
        requires
            old(self).wf(),
        ensures
            final(self).wf(),
            forall|k: Seq<u8>|
                #[trigger] lookup(final(self)@, k) == (if lookup(old(self)@, k) == Some(id@) {
                    None::<Seq<u8>>
                } else {
                    lookup(old(self)@, k)
                }),
    {
        let ghost orig = self@;
        let n = self.entries.len();
        let mut kept: Vec<(BtcAddress, AccountId)> = Vec::new();
        let mut i: usize = 0;
        while i < n
            invariant
                n == self.entries.len(),
                self@ == orig,
                i <= n,
                kept@.map_values(|p: (BtcAddress, AccountId)| (p.0@, p.1@)) =~= without_vault(
                    orig.take(i as int),
                    id@,
                ),
            decreases n - i,
        {
            proof {
                assert(orig.take(i as int + 1).drop_last() =~= orig.take(i as int));
                assert(orig.take(i as int + 1).last() == orig[i as int]);
            }
            if !self.entries[i].1.eq_id(id) {
                let addr = self.entries[i].0.clone_addr();
                let vid = self.entries[i].1.clone_id();
                kept.push((addr, vid));
            }
            i += 1;
        }
        proof {
            assert(orig.take(n as int) =~= orig);
        }
        self.entries = kept;
        proof {
            lemma_without_vault_ok(orig, id@);
        }
    }
}

/// The sequence of `Seq<u8>` views of a vector of identifiers.
pub open spec fn id_views(s: Seq<AccountId>) -> Seq<Seq<u8>> {
    s.map_values(|a: AccountId| a@)
}

/// The sequence of `Seq<u8>` views of a vector of addresses.
pub open spec fn addr_views(s: Seq<BtcAddress>) -> Seq<Seq<u8>> {
    s.map_values(|a: BtcAddress| a@)
}

/// The vault identities the registry knows under the given addresses, in
/// address order, one entry per matching address.
pub open spec fn matching(m: Seq<(Seq<u8>, Seq<u8>)>, addrs: Seq<Seq<u8>>) -> Seq<Seq<u8>>
    decreases addrs.len(),
{
    if addrs.len() == 0 {
        Seq::empty()
    } else {
        let r0 = matching(m, addrs.drop_last());
        match lookup(m, addrs.last()) {
            Some(v) => r0.push(v),
            None => r0,
        }
    }
}

/// The identities of the vaults registered under any of `addresses`.
pub fn filter_matching_vaults(addresses: Vec<BtcAddress>, vaults: &Vaults) -> (r: Vec<AccountId>)
    requires
        vaults.wf(),
    ensures
        id_views(r@) == matching(vaults@, addr_views(addresses@)),
{
    let ghost addrs = addr_views(addresses@);
    let n = addresses.len();
    let mut out: Vec<AccountId> = Vec::new();
    let mut i: usize = 0;
    while i < n
        invariant
            n == addresses.len(),
            addrs == addr_views(addresses@),
            addrs.len() == n,
            i <= n,
            vaults.wf(),
            id_views(out@) =~= matching(vaults@, addrs.take(i as int)),
        decreases n - i,
    {
        proof {
            assert(addrs.take(i as int + 1).drop_last() =~= addrs.take(i as int));
            assert(addrs.take(i as int + 1).last() == addrs[i as int]);
            assert(addrs[i as int] == addresses@[i as int]@);
        }
        match vaults.contains_key(&addresses[i]) {
            Some(id) => {
                out.push(id);
            },
            None => {},
        }
        proof {
            assert(id_views(out@) =~= matching(vaults@, addrs.take(i as int + 1)));
        }
        i += 1;
    }
    proof {
        assert(addrs.take(n as int) =~= addrs);
    }
    out
}

/// No element occurs twice.
pub open spec fn distinct_seq(s: Seq<Seq<u8>>) -> bool {
    forall|i: int, j: int| 0 <= i < j < s.len() ==> s[i] != s[j]
}

/// `s` with every repeated element dropped, keeping first occurrences in
/// order.
pub open spec fn dedup_ids(s: Seq<Seq<u8>>) -> Seq<Seq<u8>>
    decreases s.len(),
{
    if s.len() == 0 {
        Seq::empty()
    } else {
        let d0 = dedup_ids(s.drop_last());
        if s.drop_last().contains(s.last()) {
            d0
        } else {
            d0.push(s.last())
        }
    }
}

/// Deduplication keeps exactly the members and leaves no repeats.
pub proof fn lemma_dedup_ids_ok(s: Seq<Seq<u8>>)
    ensures
        forall|x: Seq<u8>| #[trigger] dedup_ids(s).contains(x) <==> s.contains(x),
        distinct_seq(dedup_ids(s)),
    decreases s.len(),
{
    if s.len() > 0 {
        let s0 = s.drop_last();
        let x = s.last();
        lemma_dedup_ids_ok(s0);
        let d0 = dedup_ids(s0);
        assert forall|y: Seq<u8>| #[trigger] dedup_ids(s).contains(y) <==> s.contains(y) by {
            assert(s =~= s0.push(x));
            if s.contains(y) {
                let j = choose|j: int| 0 <= j < s.len() && s[j] == y;
                if j < s0.len() {
                    assert(s0.contains(y));
                    assert(d0.contains(y));
                    if !s0.contains(x) {
                        let l = choose|l: int| 0 <= l < d0.len() && d0[l] == y;
                        assert(d0.push(x)[l] == y);
                    }
                } else {
                    assert(y == x);
                    if s0.contains(x) {
                        assert(d0.contains(x));
                    } else {
                        assert(d0.push(x).last() == x);
                    }
                }
            }
            if dedup_ids(s).contains(y) {
                let j = choose|j: int| 0 <= j < dedup_ids(s).len() && dedup_ids(s)[j] == y;
                if s0.contains(x) {
                    assert(d0.contains(y));
                    assert(s0.contains(y));
                    assert(s0.push(x).contains(y));
                } else {
                    if j < d0.len() {
                        assert(d0.contains(y));
                        assert(s0.contains(y));
                        assert(s0.push(x).contains(y));
                    } else {
                        assert(y == x);
                        assert(s0.push(x).last() == x);
                    }
                }
            }
        }
        if !s0.contains(x) {
            assert forall|i: int, j: int|
                0 <= i < j < dedup_ids(s).len() implies dedup_ids(s)[i] != dedup_ids(s)[j] by {
                if j < d0.len() {
                } else {
                    assert(dedup_ids(s)[j] == x);
                    assert(d0.contains(d0[i]));
                    assert(s0.contains(d0[i]));
                }
            }
        }
    }
}

/// Whether some element of `v` views to the same bytes as `x`.
fn contains_account(v: &Vec<AccountId>, x: &AccountId) -> (r: bool)
    ensures
        r == id_views(v@).contains(x@),
{
    let n = v.len();
    let mut i: usize = 0;
    while i < n
        invariant
            n == v.len(),
            i <= n,
            forall|j: int| 0 <= j < i ==> id_views(v@)[j] != x@,
        decreases n - i,
    {
        if v[i].eq_id(x) {
            proof {
                assert(id_views(v@)[i as int] == x@);
            }
            return true;
        }
        i += 1;
    }
    proof {
        if id_views(v@).contains(x@) {
            let j = choose|j: int| 0 <= j < id_views(v@).len() && id_views(v@)[j] == x@;
            assert(id_views(v@)[j] != x@);
        }
    }
    false
}

/// The identities of `ids` without repeats, first occurrences kept in
/// order: one report candidate per vault, however many of its addresses a
/// transaction pays.
pub fn dedup_accounts(ids: &Vec<AccountId>) -> (r: Vec<AccountId>)
    ensures
        id_views(r@) == dedup_ids(id_views(ids@)),
        distinct_seq(id_views(r@)),
{
    let ghost all = id_views(ids@);
    let n = ids.len();
    let mut out: Vec<AccountId> = Vec::new();
    let mut i: usize = 0;
    while i < n
        invariant
            n == ids.len(),
            all == id_views(ids@),
            all.len() == n,
            i <= n,
            id_views(out@) =~= dedup_ids(all.take(i as int)),
        decreases n - i,
    {
        proof {
            assert(all.take(i as int + 1).drop_last() =~= all.take(i as int));
            assert(all.take(i as int + 1).last() == all[i as int]);
            assert(all[i as int] == ids@[i as int]@);
            lemma_dedup_ids_ok(all.take(i as int));
        }
        if !contains_account(&out, &ids[i]) {
            let id = ids[i].clone_id();
            out.push(id);
        }
        proof {
            assert(id_views(out@) =~= dedup_ids(all.take(i as int + 1)));
        }
        i += 1;
    }
    proof {
        assert(all.take(n as int) =~= all);
        lemma_dedup_ids_ok(all);
    }
    out
}

/// The candidates with a `true` verdict, in order: one report per vault
/// the parachain judged the transaction invalid for.
pub open spec fn selected(cands: Seq<Seq<u8>>, verdicts: Seq<bool>) -> Seq<Seq<u8>>
    recommends
        cands.len() == verdicts.len(),
    decreases cands.len(),
{
    if cands.len() == 0 {
        Seq::empty()
    } else {
        let s0 = selected(cands.drop_last(), verdicts.drop_last());
        if verdicts.len() >= 1 && verdicts.last() {
            s0.push(cands.last())
        } else {
            s0
        }
    }
}

/// Theft exactness: of distinct candidate vaults, each is reported at most
/// once per transaction, and one whose verdict was `false` is not reported
/// at all.
pub proof fn lemma_theft_exactness(cands: Seq<Seq<u8>>, verdicts: Seq<bool>)
    requires
        cands.len() == verdicts.len(),
        distinct_seq(cands),
    ensures
        distinct_seq(selected(cands, verdicts)),
        forall|x: Seq<u8>| #[trigger] selected(cands, verdicts).contains(x) ==> cands.contains(x),
        forall|i: int|
            0 <= i < cands.len() && !verdicts[i] ==> !selected(cands, verdicts).contains(
                #[trigger] cands[i],
            ),
    decreases cands.len(),
{
    if cands.len() > 0 {
        let c0 = cands.drop_last();
        let v0 = verdicts.drop_last();
        let x = cands.last();
        assert(distinct_seq(c0));
        lemma_theft_exactness(c0, v0);
        let s0 = selected(c0, v0);
        let w = selected(cands, verdicts);
        assert forall|y: Seq<u8>| #[trigger] w.contains(y) implies cands.contains(y) by {
            let j = choose|j: int| 0 <= j < w.len() && w[j] == y;
            if j < s0.len() {
                assert(s0.contains(y));
                let l = choose|l: int| 0 <= l < c0.len() && c0[l] == y;
                assert(cands[l] == y);
            } else {
                assert(y == x);
                assert(cands[cands.len() - 1] == x);
            }
        }
        if verdicts.last() {
            assert forall|i: int, j: int| 0 <= i < j < w.len() implies w[i] != w[j] by {
                if j == s0.len() {
                    assert(w[j] == x);
                    assert(s0.contains(s0[i]));
                    assert(c0.contains(s0[i]));
                    let l = choose|l: int| 0 <= l < c0.len() && c0[l] == s0[i];
                    assert(cands[l] == s0[i]);
                    assert(cands[cands.len() - 1] == x);
                    assert(cands[l] != x);
                }
            }
        }
        assert forall|i: int|
            0 <= i < cands.len() && !verdicts[i] implies !w.contains(#[trigger] cands[i]) by {
            if i < c0.len() {
                assert(!s0.contains(c0[i]));
                if w.contains(cands[i]) {
                    let j = choose|j: int| 0 <= j < w.len() && w[j] == cands[i];
                    if j < s0.len() {
                        assert(s0.contains(c0[i]));
                    } else {
                        assert(verdicts.last());
                        assert(cands[i] == x);
                        assert(cands[cands.len() - 1] == x);
                        assert(i != cands.len() - 1);
                    }
                }
            } else {
                assert(i == cands.len() - 1);
                if w.contains(cands[i]) {
                    let j = choose|j: int| 0 <= j < w.len() && w[j] == cands[i];
                    assert(j < s0.len());
                    assert(s0.contains(x));
                    assert(c0.contains(x));
                    let l = choose|l: int| 0 <= l < c0.len() && c0[l] == x;
                    assert(cands[l] == x);
                }
            }
        }
    }
}

/// A fraud report the relayer submits: the vault to accuse, the accused
/// transaction and the Bitcoin height it was found at. The raw
/// transaction and its inclusion proof travel beside it.
#[derive(Debug)]
pub struct TheftReport {
    pub vault_id: AccountId,
    pub tx_id: H256Le,
    pub height: u32,
}

/// The decision core of the staked relayer's block scanner: the Bitcoin
/// height to scan next and the registry of vault addresses to match
/// transaction outputs against.
///
/// The height only ever moves forward: a Bitcoin reorganisation deeper
/// than the confirmation window is not rescanned.
#[derive(Debug)]
pub struct VaultsMonitor {
    pub btc_height: u32,
    pub vaults: Vaults,
}

impl VaultsMonitor {
    pub open spec fn wf(&self) -> bool {
        self.vaults.wf()
    }

    pub fn new(btc_height: u32, vaults: Vaults) -> (m: VaultsMonitor)
        ensures
            m.btc_height == btc_height,
            m.vaults == vaults,
    {
        VaultsMonitor { btc_height, vaults }
    }

    /// The vaults a transaction's output addresses implicate, each once:
    /// the accounts whose verdict the parachain is asked for.
    pub fn check_transaction(&self, addresses: &Vec<BtcAddress>) -> (cands: Vec<AccountId>)
        requires
            self.wf(),
        ensures
            id_views(cands@) == dedup_ids(matching(self.vaults@, addr_views(addresses@))),
            distinct_seq(id_views(cands@)),
    {
        let ghost a = addresses@;
        let addrs_copy = copy_addresses(addresses);
        let matched = filter_matching_vaults(addrs_copy, &self.vaults);
        dedup_accounts(&matched)
    }

    /// The reports to submit for one transaction, given the candidate
    /// vaults and the parachain's verdict for each: exactly the vaults
    /// judged invalid, with this transaction and the scanned height.
    pub fn theft_reports(
        &self,
        tx_id: &H256Le,
        candidates: &Vec<AccountId>,
        verdicts: &Vec<bool>,
    ) -> (reports: Vec<TheftReport>)
        requires
            candidates.len() == verdicts.len(),
        ensures
            reports@.map_values(|r: TheftReport| r.vault_id@) == selected(
                id_views(candidates@),
                verdicts@,
            ),
            forall|j: int|
                0 <= j < reports@.len() ==> (#[trigger] reports@[j]).tx_id@ == tx_id@
                    && reports@[j].height == self.btc_height,
    {
        let ghost cands = id_views(candidates@);
        let n = candidates.len();
        let mut out: Vec<TheftReport> = Vec::new();
        let mut i: usize = 0;
        while i < n
            invariant
                n == candidates.len(),
                n == verdicts.len(),
                cands == id_views(candidates@),
                cands.len() == n,
                i <= n,
                out@.map_values(|r: TheftReport| r.vault_id@) =~= selected(
                    cands.take(i as int),
                    verdicts@.take(i as int),
                ),
                forall|j: int|
                    0 <= j < out@.len() ==> (#[trigger] out@[j]).tx_id@ == tx_id@ && out@[j].height
                        == self.btc_height,
            decreases n - i,
        {
            proof {
                assert(cands.take(i as int + 1).drop_last() =~= cands.take(i as int));
                assert(verdicts@.take(i as int + 1).drop_last() =~= verdicts@.take(i as int));
                assert(cands.take(i as int + 1).last() == candidates@[i as int]@);
                assert(verdicts@.take(i as int + 1).last() == verdicts@[i as int]);
            }
            if verdicts[i] {
                let report = TheftReport {
                    vault_id: candidates[i].clone_id(),
                    tx_id: tx_id.clone_hash(),
                    height: self.btc_height,
                };
                out.push(report);
            }
            proof {
                assert(out@.map_values(|r: TheftReport| r.vault_id@) =~= selected(
                    cands.take(i as int + 1),
                    verdicts@.take(i as int + 1),
                ));
            }
            i += 1;
        }
        proof {
            assert(cands.take(n as int) =~= cands);
            assert(verdicts@.take(n as int) =~= verdicts@);
        }
        out
    }

    /// Move to the next Bitcoin height after a fully scanned block; a
    /// failed scan leaves the height alone, so the same block is retried.
    pub fn advance(&mut self, scan_ok: bool)
        requires
            old(self).btc_height < u32::MAX,
        ensures
            scan_ok ==> final(self).btc_height == old(self).btc_height + 1,
            !scan_ok ==> final(self).btc_height == old(self).btc_height,
            final(self).vaults == old(self).vaults,
    {
        if scan_ok {
            self.btc_height = self.btc_height + 1;
        }
    }
}

/// A copy of an address vector with the same contents.
fn copy_addresses(addresses: &Vec<BtcAddress>) -> (r: Vec<BtcAddress>)
    ensures
        addr_views(r@) == addr_views(addresses@),
{
    let n = addresses.len();
    let mut out: Vec<BtcAddress> = Vec::new();
    let mut i: usize = 0;
    while i < n
        invariant
            n == addresses.len(),
            i <= n,
            out@.len() == i,
            addr_views(out@) =~= addr_views(addresses@).take(i as int),
        decreases n - i,
    {
        let a = addresses[i].clone_addr();
        out.push(a);
        proof {
            assert(addr_views(out@) =~= addr_views(addresses@).take(i as int + 1));
        }
        i += 1;
    }
    proof {
        assert(addr_views(addresses@).take(n as int) =~= addr_views(addresses@));
    }
    out
}

} // verus!
