//! The ballot store: one current ballot per voter. Casting again replaces
//! the voter's earlier ballot in full; there is no merging and no limit on
//! re-votes. The store itself knows nothing of validation or of the
//! decision lock; it is a plain keyed collection with last-write-wins
//! update semantics.

use vstd::prelude::*;

verus! {

/// One stored record: a voter identity and that voter's current ballot.
pub type EntrySeq = Seq<(Seq<char>, Seq<Seq<char>>)>;

/// No voter identity occurs twice among the records.
pub open spec fn distinct_keys(s: EntrySeq) -> bool {
    forall|i: int, j: int| 0 <= i < j < s.len() ==> s[i].0 != s[j].0
}

/// The stored ballots, in store order.
pub open spec fn ballot_list(s: EntrySeq) -> Seq<Seq<Seq<char>>> {
    s.map_values(|e: (Seq<char>, Seq<Seq<char>>)| e.1)
}

/// The records after voter `k` submits ballot `v`: `k`'s record is
/// replaced in place when present, appended otherwise.
pub open spec fn upsert(s: EntrySeq, k: Seq<char>, v: Seq<Seq<char>>) -> EntrySeq
    decreases s.len(),
{
    if s.len() == 0 {
        seq![(k, v)]
    } else if s[0].0 == k {
        seq![(k, v)] + s.drop_first()
    } else {
        seq![s[0]] + upsert(s.drop_first(), k, v)
    }
}

/// The current ballot of voter `k`, if any.
pub open spec fn lookup(s: EntrySeq, k: Seq<char>) -> Option<Seq<Seq<char>>>
    decreases s.len(),
{
    if s.len() == 0 {
        None
    } else if s[0].0 == k {
        Some(s[0].1)
    } else {
        lookup(s.drop_first(), k)
    }
}

/// Submitting stores the submitted ballot under the submitting voter and
/// leaves every other voter's ballot as it was.
pub proof fn lemma_upsert_lookup(s: EntrySeq, k: Seq<char>, v: Seq<Seq<char>>, k2: Seq<char>)
    ensures
        lookup(upsert(s, k, v), k) == Some(v),
        k2 != k ==> lookup(upsert(s, k, v), k2) == lookup(s, k2),
    decreases s.len(),
{
    if s.len() == 0 {
        assert(upsert(s, k, v) == seq![(k, v)]);
        assert(seq![(k, v)].drop_first() =~= Seq::<(Seq<char>, Seq<Seq<char>>)>::empty());
        if k2 != k {
            assert(lookup(seq![(k, v)], k2) == lookup(seq![(k, v)].drop_first(), k2));
        }
    } else if s[0].0 == k {
        assert(upsert(s, k, v) == seq![(k, v)] + s.drop_first());
        assert((seq![(k, v)] + s.drop_first())[0] == (k, v));
        assert((seq![(k, v)] + s.drop_first()).drop_first() =~= s.drop_first());
    } else {
        assert(upsert(s, k, v) == seq![s[0]] + upsert(s.drop_first(), k, v));
        lemma_upsert_lookup(s.drop_first(), k, v, k2);
        assert((seq![s[0]] + upsert(s.drop_first(), k, v))[0] == s[0]);
        assert((seq![s[0]] + upsert(s.drop_first(), k, v)).drop_first() =~= upsert(
            s.drop_first(),
            k,
            v,
        ));
    }
}

/// Re-voting is last-write-wins: two submissions by the same voter leave
/// exactly the state of the second alone.
pub proof fn lemma_revote_last_write_wins(
    s: EntrySeq,
    k: Seq<char>,
    v1: Seq<Seq<char>>,
    v2: Seq<Seq<char>>,
)
    ensures
        upsert(upsert(s, k, v1), k, v2) == upsert(s, k, v2),
    decreases s.len(),
{
    if s.len() == 0 {
        assert(upsert(upsert(s, k, v1), k, v2) =~= upsert(s, k, v2));
    } else if s[0].0 == k {
        let u1 = seq![(k, v1)] + s.drop_first();
        assert(u1[0].0 == k);
        assert(u1.drop_first() =~= s.drop_first());
        assert(upsert(u1, k, v2) =~= upsert(s, k, v2));
    } else {
        lemma_revote_last_write_wins(s.drop_first(), k, v1, v2);
        let u1 = seq![s[0]] + upsert(s.drop_first(), k, v1);
        assert(u1[0] == s[0]);
        assert(u1.drop_first() =~= upsert(s.drop_first(), k, v1));
        assert(upsert(u1, k, v2) =~= seq![s[0]] + upsert(upsert(s.drop_first(), k, v1), k, v2));
    }
}

/// Updating keeps the keys distinct.
pub proof fn lemma_upsert_distinct(s: EntrySeq, k: Seq<char>, v: Seq<Seq<char>>)
    requires
        distinct_keys(s),
    ensures
        distinct_keys(upsert(s, k, v)),
        upsert(s, k, v).len() <= s.len() + 1,
    decreases s.len(),
{
    if s.len() == 0 {
    } else if s[0].0 == k {
        let u = seq![(k, v)] + s.drop_first();
        assert forall|i: int, j: int| 0 <= i < j < u.len() implies u[i].0 != u[j].0 by {
            if i == 0 {
                assert(u[j] == s[j]);
            } else {
                assert(u[i] == s[i] && u[j] == s[j]);
            }
        }
    } else {
        assert(distinct_keys(s.drop_first()));
        lemma_upsert_distinct(s.drop_first(), k, v);
        let r = upsert(s.drop_first(), k, v);
        let u = seq![s[0]] + r;
        assert forall|i: int, j: int| 0 <= i < j < u.len() implies u[i].0 != u[j].0 by {
            if i == 0 {
                assert(u[j] == r[j - 1]);
                lemma_upsert_members(s.drop_first(), k, v, j - 1);
                if r[j - 1].0 == k {
                } else {
                    let m = choose|m: int|
                        0 <= m < s.drop_first().len() && s.drop_first()[m] == r[j - 1];
                    assert(s[m + 1] == r[j - 1]);
                }
            } else {
                assert(u[i] == r[i - 1] && u[j] == r[j - 1]);
            }
        }
    }
}

/// Every record after an update is either the new record or one of the old
/// records.
pub proof fn lemma_upsert_members(s: EntrySeq, k: Seq<char>, v: Seq<Seq<char>>, i: int)
    requires
        0 <= i < upsert(s, k, v).len(),
    ensures
        upsert(s, k, v)[i] == (k, v) || s.contains(upsert(s, k, v)[i]),
    decreases s.len(),
{
    if s.len() == 0 {
    } else if s[0].0 == k {
        let u = seq![(k, v)] + s.drop_first();
        if i > 0 {
            assert(u[i] == s[i]);
        }
    } else {
        let u = seq![s[0]] + upsert(s.drop_first(), k, v);
        if i == 0 {
            assert(s.contains(s[0]));
        } else {
            lemma_upsert_members(s.drop_first(), k, v, i - 1);
            if upsert(s.drop_first(), k, v)[i - 1] == (k, v) {
            } else {
                let m = choose|m: int|
                    0 <= m < s.drop_first().len() && s.drop_first()[m] == u[i];
                assert(s[m + 1] == u[i]);
            }
        }
    }
}

/// The keyed store of current ballots.
pub struct BallotStore {
    pub entries: Vec<(String, Vec<String>)>,
}

impl View for BallotStore {
    type V = EntrySeq;

    open spec fn view(&self) -> EntrySeq {
        self.entries.deep_view()
    }
}

impl BallotStore {
    /// At most one stored ballot per voter.
    pub open spec fn wf(&self) -> bool {
        distinct_keys(self@)
    }

    /// An empty store.
    pub fn new() -> (r: BallotStore)
        ensures
            r@ == Seq::<(Seq<char>, Seq<Seq<char>>)>::empty(),
            r.wf(),
    {
        let r = BallotStore { entries: Vec::new() };
        proof {
            assert(r@ =~= Seq::<(Seq<char>, Seq<Seq<char>>)>::empty());
        }
        r
    }

    /// How many voters currently have a ballot stored.
    pub fn len(&self) -> (r: usize)
        ensures
            r == self@.len(),
    {
        self.entries.len()
    }

    /// Stores `ballot` as `voter`'s current ballot, replacing any earlier
    /// one from the same voter.
    pub fn upsert(&mut self, voter: String, ballot: Vec<String>)
        requires
            old(self).wf(),
        ensures
            final(self)@ == upsert(old(self)@, voter@, ballot.deep_view()),
            final(self).wf(),
    {
        let ghost s = self@;
        let ghost kv = (voter@, ballot.deep_view());
        let n = self.entries.len();
        let mut j: usize = 0;
        proof {
            assert(s.skip(0) =~= s);
        }
        while j < n
            invariant
                j <= n,
                n == s.len(),
                s == self@,
                self.entries.len() == n,
                old(self).wf(),
                s == old(self)@,
                kv == (voter@, ballot.deep_view()),
                upsert(s, kv.0, kv.1) == s.take(j as int) + upsert(s.skip(j as int), kv.0, kv.1),
                forall|m: int| 0 <= m < j ==> s[m].0 != kv.0,
            decreases n - j,
        {
            if self.entries[j].0 == voter {
                proof {
                    assert(s[j as int] == self.entries@[j as int].deep_view());
                    assert(s[j as int].0 == voter@);
                    assert(s.skip(j as int)[0] == s[j as int]);
                    assert(s.skip(j as int).drop_first() =~= s.skip(j as int + 1));
                    assert(s.skip(j as int).len() > 0);
                    assert(s.skip(j as int)[0].0 == kv.0);
                    assert((kv.0, kv.1) == kv);
                    assert(upsert(s.skip(j as int), kv.0, kv.1) == seq![(kv.0, kv.1)] + s.skip(
                        j as int,
                    ).drop_first());
                    assert(upsert(s.skip(j as int), kv.0, kv.1) =~= seq![kv] + s.skip(
                        j as int + 1,
                    ));
                }
                self.entries[j] = (voter, ballot);
                proof {
                    assert(self@ =~= s.take(j as int) + (seq![kv] + s.skip(j as int + 1)));
                    lemma_upsert_distinct(s, kv.0, kv.1);
                }
                return ;
            }
            proof {
                assert(s[j as int] == self.entries@[j as int].deep_view());
                assert(s[j as int].0 != voter@);
                assert(s.skip(j as int)[0] == s[j as int]);
                assert(s.skip(j as int).drop_first() =~= s.skip(j as int + 1));
                assert(upsert(s.skip(j as int), kv.0, kv.1) == seq![s[j as int]] + upsert(
                    s.skip(j as int + 1),
                    kv.0,
                    kv.1,
                ));
                assert(s.take(j as int + 1) =~= s.take(j as int) + seq![s[j as int]]);
                assert(s.take(j as int) + upsert(s.skip(j as int), kv.0, kv.1) =~= s.take(
                    j as int + 1,
                ) + upsert(s.skip(j as int + 1), kv.0, kv.1));
            }
            j = j + 1;
        }
        proof {
            assert(s.skip(n as int) =~= Seq::<(Seq<char>, Seq<Seq<char>>)>::empty());
            assert(upsert(s, kv.0, kv.1) =~= s.push(kv));
        }
        self.entries.push((voter, ballot));
        proof {
            assert(self@ =~= s.push(kv));
            lemma_upsert_distinct(s, kv.0, kv.1);
        }
    }

    /// The stored ballots, in store order, for the tally.
    pub fn all_ballots(&self) -> (r: Vec<Vec<String>>)
        ensures
            r.deep_view() == ballot_list(self@),
    {
        let mut r: Vec<Vec<String>> = Vec::new();
        let mut j: usize = 0;
        while j < self.entries.len()
            invariant
                j <= self.entries.len(),
                r.deep_view() =~= ballot_list(self@.take(j as int)),
            decreases self.entries.len() - j,
        {
            let b = crate::registry::clone_strings(&self.entries[j].1);
            let ghost before = r.deep_view();
            r.push(b);
            proof {
                assert(r.deep_view() =~= before.push(self@[j as int].1));
                assert(ballot_list(self@.take(j as int + 1)) =~= ballot_list(
                    self@.take(j as int),
                ).push(self@[j as int].1));
            }
            j = j + 1;
        }
        proof {
            assert(self@.take(self.entries.len() as int) =~= self@);
        }
        r
    }
}

} // verus!
