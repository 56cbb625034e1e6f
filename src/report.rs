use vstd::prelude::*;

use crate::address::ClientAddress;
use crate::store::{keys_unique, lemma_tally_at, tally, CounterStore, ReportEntry};

verus! {

broadcast use vstd::seq_lib::group_to_multiset_ensures;

/// `a` is listed before `b` in a report: a higher count first, and among
/// equal counts the lower address first.
pub open spec fn outranks(a: ReportEntry, b: ReportEntry) -> bool {
    a.count > b.count || (a.count == b.count && a.address.spec_before(b.address))
}

/// No entry of `s` outranks an entry listed before it.
pub open spec fn ranked(s: Seq<ReportEntry>) -> bool {
    forall|i: int, j: int| #![trigger s[i], s[j]] 0 <= i < j < s.len() ==> !outranks(s[j], s[i])
}

/// The entries of `entries`, reordered by descending count, ties broken by
/// ascending address.
pub fn rank(entries: &Vec<ReportEntry>) -> (r: Vec<ReportEntry>)
    ensures
        r@.to_multiset() == entries@.to_multiset(),
        ranked(r@),
{
    let mut r: Vec<ReportEntry> = Vec::new();
    let n = entries.len();
    let mut i: usize = 0;
    while i < n
        invariant
            n == entries@.len(),
            0 <= i <= n,
            r@.to_multiset() == entries@.subrange(0, i as int).to_multiset(),
            ranked(r@),
        decreases n - i,
    {
        let e = entries[i];
        let m = r.len();
        let mut pos: usize = 0;
        while pos < m
            invariant
                m == r@.len(),
                0 <= pos <= m,
                forall|k: int| 0 <= k < pos ==> !outranks(e, #[trigger] r@[k]),
            ensures
                0 <= pos <= m,
                forall|k: int| 0 <= k < pos ==> !outranks(e, #[trigger] r@[k]),
                pos < m ==> outranks(e, r@[pos as int]),
            decreases m - pos,
        {
            let c = r[pos];
            if e.count > c.count || (e.count == c.count && e.address.before(&c.address)) {
                break;
            }
            pos += 1;
        }
        let ghost before = r@;
        r.insert(pos, e);
        proof {
            assert forall|a: int, b: int| 0 <= a < b < r@.len() implies !outranks(
                #[trigger] r@[b],
                #[trigger] r@[a],
            ) by {
                if a < pos && b == pos {
                } else if a == pos {
                    assert(r@[b] == before[b - 1]);
                    if outranks(r@[b], e) {
                        crate::address::lemma_before_total(e.address, r@[b].address);
                    }
                    if b - 1 > pos {
                        assert(!outranks(before[b - 1], before[pos as int]));
                    }
                    if outranks(before[b - 1], e) && outranks(e, before[pos as int]) {
                        crate::address::lemma_before_transitive(
                            before[b - 1].address,
                            e.address,
                            before[pos as int].address,
                        );
                    }
                } else if b < pos {
                    assert(r@[a] == before[a] && r@[b] == before[b]);
                } else if a < pos {
                    assert(r@[a] == before[a] && r@[b] == before[b - 1]);
                } else {
                    assert(r@[a] == before[a - 1] && r@[b] == before[b - 1]);
                }
            }
            assert(entries@.subrange(0, i + 1) =~= entries@.subrange(0, i as int).push(e));
        }
        i += 1;
    }
    assert(entries@.subrange(0, n as int) =~= entries@);
    r
}

/// Reordering entries with unique addresses keeps the addresses unique and
/// describes the same tally.
pub proof fn lemma_reorder_keeps_tally(s1: Seq<ReportEntry>, s2: Seq<ReportEntry>)
    requires
        keys_unique(s1),
        s1.to_multiset() == s2.to_multiset(),
    ensures
        keys_unique(s2),
        tally(s2) == tally(s1),
{
    assert(s1.no_duplicates()) by {
        assert forall|i: int, j: int| 0 <= i < s1.len() && 0 <= j < s1.len() && i != j implies s1[i]
            != s1[j] by {
            assert(s1[i].address != s1[j].address);
        }
    }
    s1.lemma_multiset_has_no_duplicates();
    s2.lemma_multiset_has_no_duplicates_conv();
    assert forall|i: int, j: int| 0 <= i < s2.len() && 0 <= j < s2.len() && i != j implies #[trigger] s2[i].address
        != #[trigger] s2[j].address by {
        assert(s2.contains(s2[i]) && s2.contains(s2[j]));
        assert(s1.to_multiset().count(s2[i]) > 0 && s1.to_multiset().count(s2[j]) > 0);
        assert(s1.contains(s2[i]) && s1.contains(s2[j]));
        let p = choose|p: int| 0 <= p < s1.len() && s1[p] == s2[i];
        let q = choose|q: int| 0 <= q < s1.len() && s1[q] == s2[j];
        assert(s2[i] != s2[j]);
    }
    assert forall|a: ClientAddress| #[trigger] tally(s2).contains_key(a) == tally(s1).contains_key(a)
        && (tally(s1).contains_key(a) ==> tally(s2)[a] == tally(s1)[a]) by {
        if tally(s2).contains_key(a) {
            let k = choose|k: int| 0 <= k < s2.len() && #[trigger] s2[k].address == a;
            assert(s2.contains(s2[k]));
            assert(s1.to_multiset().count(s2[k]) > 0);
            assert(s1.contains(s2[k]));
            let p = choose|p: int| 0 <= p < s1.len() && s1[p] == s2[k];
            lemma_tally_at(s1, p);
            lemma_tally_at(s2, k);
        }
        if tally(s1).contains_key(a) {
            let p = choose|p: int| 0 <= p < s1.len() && #[trigger] s1[p].address == a;
            assert(s1.contains(s1[p]));
            assert(s2.to_multiset().count(s1[p]) > 0);
            assert(s2.contains(s1[p]));
            let k = choose|k: int| 0 <= k < s2.len() && s2[k] == s1[p];
            lemma_tally_at(s1, p);
            lemma_tally_at(s2, k);
        }
    }
    assert(tally(s2) =~= tally(s1));
}

impl CounterStore {
    /// A point-in-time copy of every `(address, count)` pair, in report
    /// order: descending count, ties by ascending address.
    pub fn ranked_snapshot(&self) -> (r: Vec<ReportEntry>)
        requires
            self.wf(),
        ensures
            keys_unique(r@),
            tally(r@) == self@,
            ranked(r@),
    {
        let snap = self.snapshot();
        let r = rank(&snap);
        proof {
            lemma_reorder_keeps_tally(snap@, r@);
        }
        r
    }
}

} // verus!
