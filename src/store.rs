use vstd::prelude::*;

use crate::address::ClientAddress;

verus! {

/// One `(address, count)` pair drawn from the store.
#[derive(Clone, Copy, Debug, PartialEq, Eq, Structural)]
pub struct ReportEntry {
    pub address: ClientAddress,
    pub count: u64,
}

/// No address stands in two entries.
pub open spec fn keys_unique(s: Seq<ReportEntry>) -> bool {
    forall|i: int, j: int|
        #![trigger s[i], s[j]]
        0 <= i < s.len() && 0 <= j < s.len() && i != j ==> s[i].address != s[j].address
}

/// Some entry holds address `a`.
pub open spec fn has_entry(s: Seq<ReportEntry>, a: ClientAddress) -> bool {
    exists|i: int| 0 <= i < s.len() && #[trigger] s[i].address == a
}

/// The position of an entry that holds address `a`.
pub open spec fn entry_index(s: Seq<ReportEntry>, a: ClientAddress) -> int {
    choose|i: int| 0 <= i < s.len() && #[trigger] s[i].address == a
}

/// The address-to-count mapping that a sequence of entries describes.
pub open spec fn tally(s: Seq<ReportEntry>) -> Map<ClientAddress, nat> {
    Map::new(|a: ClientAddress| has_entry(s, a), |a: ClientAddress| s[entry_index(s, a)].count as nat)
}

/// The mapping after one more request from `a`: a new address starts at one,
/// a known one goes up by one (a count at `u64::MAX` stays there).
pub open spec fn bumped(m: Map<ClientAddress, nat>, a: ClientAddress) -> Map<ClientAddress, nat> {
    m.insert(
        a,
        if m.contains_key(a) {
            if m[a] < u64::MAX {
                m[a] + 1
            } else {
                m[a]
            }
        } else {
            1
        },
    )
}

/// The mapping after the requests `xs`, in order, on an empty store.
pub open spec fn replay(xs: Seq<ClientAddress>) -> Map<ClientAddress, nat>
    decreases xs.len(),
{
    if xs.len() == 0 {
        Map::empty()
    } else {
        bumped(replay(xs.drop_last()), xs.last())
    }
}

/// How many times `a` occurs in `xs`.
pub open spec fn occurrences(xs: Seq<ClientAddress>, a: ClientAddress) -> nat
    decreases xs.len(),
{
    if xs.len() == 0 {
        0
    } else {
        occurrences(xs.drop_last(), a) + if xs.last() == a {
            1nat
        } else {
            0nat
        }
    }
}

/// `xs` with every occurrence of `a` taken out.
pub open spec fn without(xs: Seq<ClientAddress>, a: ClientAddress) -> Seq<ClientAddress>
    decreases xs.len(),
{
    if xs.len() == 0 {
        xs
    } else if xs.last() == a {
        without(xs.drop_last(), a)
    } else {
        without(xs.drop_last(), a).push(xs.last())
    }
}

/// The sum of the counts of a sequence of entries.
pub open spec fn total(s: Seq<ReportEntry>) -> int
    decreases s.len(),
{
    if s.len() == 0 {
        0
    } else {
        total(s.drop_last()) + s.last().count
    }
}

/// With unique keys, the tally at an entry's address is that entry's count.
pub proof fn lemma_tally_at(s: Seq<ReportEntry>, i: int)
    requires
        keys_unique(s),
        0 <= i < s.len(),
    ensures
        tally(s).contains_key(s[i].address),
        tally(s)[s[i].address] == s[i].count as nat,
{
    let a = s[i].address;
    assert(has_entry(s, a));
    let k = entry_index(s, a);
    assert(s[k].address == a);
}

/// Replacing the count of an existing entry replaces that address's tally.
pub proof fn lemma_tally_update(s: Seq<ReportEntry>, i: int, e: ReportEntry)
    requires
        keys_unique(s),
        0 <= i < s.len(),
        e.address == s[i].address,
    ensures
        keys_unique(s.update(i, e)),
        tally(s.update(i, e)) == tally(s).insert(e.address, e.count as nat),
{
    let s2 = s.update(i, e);
    assert(keys_unique(s2));
    let m = tally(s).insert(e.address, e.count as nat);
    assert forall|b: ClientAddress| has_entry(s2, b) == m.contains_key(b) by {
        if has_entry(s2, b) {
            let j = entry_index(s2, b);
            assert(s[j].address == b);
        }
        if has_entry(s, b) {
            let j = entry_index(s, b);
            assert(s2[j].address == b);
        }
    }
    assert forall|b: ClientAddress| #[trigger] m.contains_key(b) implies tally(s2)[b] == m[b] by {
        if b == e.address {
            lemma_tally_at(s2, i);
        } else {
            let j = entry_index(s, b);
            lemma_tally_at(s, j);
            assert(s2[j] == s[j]);
            lemma_tally_at(s2, j);
        }
    }
    assert(tally(s2) =~= m);
}

/// Appending an entry for a new address adds that address to the tally.
pub proof fn lemma_tally_push(s: Seq<ReportEntry>, e: ReportEntry)
    requires
        keys_unique(s),
        !has_entry(s, e.address),
    ensures
        keys_unique(s.push(e)),
        tally(s.push(e)) == tally(s).insert(e.address, e.count as nat),
{
    let s2 = s.push(e);
    assert forall|i: int, j: int|
        0 <= i < s2.len() && 0 <= j < s2.len() && i != j implies #[trigger] s2[i].address
        != #[trigger] s2[j].address by {
        if i < s.len() && j < s.len() {
            assert(s2[i] == s[i] && s2[j] == s[j]);
        } else if i < s.len() {
            assert(s2[i] == s[i]);
        } else {
            assert(s2[j] == s[j]);
        }
    }
    let m = tally(s).insert(e.address, e.count as nat);
    assert forall|b: ClientAddress| has_entry(s2, b) == m.contains_key(b) by {
        if has_entry(s2, b) && b != e.address {
            let j = entry_index(s2, b);
            assert(s[j].address == b);
        }
        if has_entry(s, b) {
            let j = entry_index(s, b);
            assert(s2[j].address == b);
        }
        if b == e.address {
            assert(s2[s.len() as int].address == b);
        }
    }
    assert forall|b: ClientAddress| #[trigger] m.contains_key(b) implies tally(s2)[b] == m[b] by {
        if b == e.address {
            lemma_tally_at(s2, s.len() as int);
        } else {
            let j = entry_index(s, b);
            lemma_tally_at(s, j);
            assert(s2[j] == s[j]);
            lemma_tally_at(s2, j);
        }
    }
    assert(tally(s2) =~= m);
}

/// An address occurs at most as often as the sequence is long.
proof fn lemma_occurrences_bound(xs: Seq<ClientAddress>, a: ClientAddress)
    ensures
        occurrences(xs, a) <= xs.len(),
    decreases xs.len(),
{
    if xs.len() > 0 {
        lemma_occurrences_bound(xs.drop_last(), a);
    }
}

/// Taking out every `a` leaves the other addresses' occurrences alone.
proof fn lemma_without(xs: Seq<ClientAddress>, a: ClientAddress)
    ensures
        without(xs, a).len() + occurrences(xs, a) == xs.len(),
        occurrences(without(xs, a), a) == 0,
        forall|b: ClientAddress|
            b != a ==> #[trigger] occurrences(without(xs, a), b) == occurrences(xs, b),
    decreases xs.len(),
{
    if xs.len() > 0 {
        let ys = xs.drop_last();
        lemma_without(ys, a);
        if xs.last() != a {
            let w = without(ys, a).push(xs.last());
            assert(w.drop_last() =~= without(ys, a));
            assert(w.last() == xs.last());
            assert forall|b: ClientAddress| b != a implies #[trigger] occurrences(w, b)
                == occurrences(xs, b) by {
                assert(occurrences(w, b) == occurrences(without(ys, a), b) + if xs.last() == b {
                    1nat
                } else {
                    0nat
                });
            }
            assert(occurrences(w, a) == occurrences(without(ys, a), a));
        }
    }
}

/// Counting law: after the requests `xs` on an empty store, exactly the
/// addresses that occur in `xs` have an entry, and each one's count is the
/// number of requests made from it.
pub proof fn lemma_replay_counts(xs: Seq<ClientAddress>)
    requires
        xs.len() <= u64::MAX,
    ensures
        forall|a: ClientAddress|
            #[trigger] replay(xs).contains_key(a) == (occurrences(xs, a) > 0),
        forall|a: ClientAddress|
            #[trigger] replay(xs).contains_key(a) ==> replay(xs)[a] == occurrences(xs, a),
    decreases xs.len(),
{
    if xs.len() > 0 {
        let ys = xs.drop_last();
        let x = xs.last();
        lemma_replay_counts(ys);
        lemma_occurrences_bound(ys, x);
        assert(replay(xs) == bumped(replay(ys), x));
        assert forall|a: ClientAddress| #[trigger] replay(xs).contains_key(a) == (occurrences(
            xs,
            a,
        ) > 0) && (replay(xs).contains_key(a) ==> replay(xs)[a] == occurrences(xs, a)) by {
            assert(occurrences(xs, a) == occurrences(ys, a) + if x == a {
                1nat
            } else {
                0nat
            });
            assert(replay(ys).contains_key(a) == (occurrences(ys, a) > 0));
        }
    } else {
        assert forall|a: ClientAddress| !#[trigger] replay(xs).contains_key(a) && occurrences(
            xs,
            a,
        ) == 0 by {}
    }
}

/// The counts of entries that match a request sequence add up to its length.
proof fn lemma_total_matches(s: Seq<ReportEntry>, xs: Seq<ClientAddress>)
    requires
        keys_unique(s),
        forall|i: int| 0 <= i < s.len() ==> #[trigger] s[i].count == occurrences(xs, s[i].address),
        forall|a: ClientAddress| occurrences(xs, a) > 0 ==> #[trigger] has_entry(s, a),
    ensures
        total(s) == xs.len(),
    decreases s.len(),
{
    if s.len() == 0 {
        assert forall|a: ClientAddress| occurrences(xs, a) == 0 by {
            if occurrences(xs, a) > 0 {
                assert(has_entry(s, a));
            }
        }
        if xs.len() > 0 {
            assert(occurrences(xs, xs.last()) > 0);
        }
    } else {
        let e = s.last();
        let t = s.drop_last();
        let ys = without(xs, e.address);
        lemma_without(xs, e.address);
        assert forall|i: int| 0 <= i < t.len() implies #[trigger] t[i].count == occurrences(
            ys,
            t[i].address,
        ) by {
            assert(t[i] == s[i]);
            assert(s[i].address != s[s.len() - 1].address);
        }
        assert forall|a: ClientAddress| occurrences(ys, a) > 0 implies #[trigger] has_entry(t, a) by {
            assert(a != e.address);
            assert(has_entry(s, a));
            let j = entry_index(s, a);
            assert(j != s.len() - 1);
            assert(t[j].address == a);
        }
        lemma_total_matches(t, ys);
    }
}

/// Counting law: a snapshot taken after the requests `xs` on an empty store
/// has counts that add up to the number of requests.
pub proof fn lemma_snapshot_total(xs: Seq<ClientAddress>, s: Seq<ReportEntry>)
    requires
        xs.len() <= u64::MAX,
        keys_unique(s),
        tally(s) == replay(xs),
    ensures
        total(s) == xs.len(),
{
    lemma_replay_counts(xs);
    assert forall|i: int| 0 <= i < s.len() implies #[trigger] s[i].count == occurrences(
        xs,
        s[i].address,
    ) by {
        lemma_tally_at(s, i);
    }
    assert forall|a: ClientAddress| occurrences(xs, a) > 0 implies #[trigger] has_entry(s, a) by {
        assert(replay(xs).contains_key(a));
        assert(tally(s).contains_key(a));
    }
    lemma_total_matches(s, xs);
}

/// A snapshot of a store that has seen no request is empty.
pub proof fn lemma_empty_snapshot(s: Seq<ReportEntry>)
    requires
        tally(s) == Map::<ClientAddress, nat>::empty(),
    ensures
        s.len() == 0,
{
    if s.len() > 0 {
        assert(has_entry(s, s[0].address));
        assert(tally(s).contains_key(s[0].address));
    }
}


/// The shared record of per-client request counts.
///
/// Each distinct address holds one entry, with a count of at least one; an
/// address without an entry has been seen zero times.
pub struct CounterStore {
    entries: Vec<ReportEntry>,
}

impl View for CounterStore {
    type V = Map<ClientAddress, nat>;

    closed spec fn view(&self) -> Map<ClientAddress, nat> {
        tally(self.entries@)
    }
}

impl CounterStore {
    /// The store's invariant: unique addresses, positive counts.
    pub closed spec fn wf(&self) -> bool {
        &&& keys_unique(self.entries@)
        &&& forall|i: int| 0 <= i < self.entries@.len() ==> #[trigger] self.entries@[i].count >= 1
    }

    /// An empty store.
    pub fn new() -> (r: CounterStore)
        ensures
            r.wf(),
            r@ == Map::<ClientAddress, nat>::empty(),
    {
        let r = CounterStore { entries: Vec::new() };
        assert(tally(r.entries@) =~= Map::<ClientAddress, nat>::empty());
        r
    }

    /// Records one request from `address`.
    pub fn increment(&mut self, address: ClientAddress)
        requires
            old(self).wf(),
        ensures
            final(self).wf(),
            final(self)@ == bumped(old(self)@, address),
    {
        let n = self.entries.len();
        let mut i: usize = 0;
        while i < n
            invariant
                n == self.entries@.len(),
                self.entries@ == old(self).entries@,
                self.wf(),
                0 <= i <= n,
                forall|j: int| 0 <= j < i ==> #[trigger] self.entries@[j].address != address,
            decreases n - i,
        {
            if self.entries[i].address == address {
                let c = self.entries[i].count;
                let next = if c < u64::MAX {
                    c + 1
                } else {
                    c
                };
                let e = ReportEntry { address, count: next };
                proof {
                    lemma_tally_at(self.entries@, i as int);
                    lemma_tally_update(self.entries@, i as int, e);
                }
                self.entries.set(i, e);
                assert(self@ =~= bumped(old(self)@, address));
                return;
            }
            i += 1;
        }
        let e = ReportEntry { address, count: 1 };
        proof {
            if old(self)@.contains_key(address) {
                let k = entry_index(self.entries@, address);
                assert(self.entries@[k].address == address);
            }
            lemma_tally_push(self.entries@, e);
        }
        self.entries.push(e);
        assert(self@ =~= bumped(old(self)@, address));
    }

    /// A point-in-time copy of every `(address, count)` pair, in no
    /// particular order.
    pub fn snapshot(&self) -> (r: Vec<ReportEntry>)
        requires
            self.wf(),
        ensures
            keys_unique(r@),
            tally(r@) == self@,
    {
        let mut r: Vec<ReportEntry> = Vec::new();
        let n = self.entries.len();
        let mut i: usize = 0;
        while i < n
            invariant
                n == self.entries@.len(),
                0 <= i <= n,
                r@ == self.entries@.subrange(0, i as int),
            decreases n - i,
        {
            r.push(self.entries[i]);
            i += 1;
            assert(r@ =~= self.entries@.subrange(0, i as int));
        }
        assert(r@ =~= self.entries@);
        r
    }
}

} // verus!
