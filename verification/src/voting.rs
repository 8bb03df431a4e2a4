//! The voting contract core: a fixed candidate registry, the ballot store,
//! and the one-shot decision lock around the tally.
//!
//! Identities (the voter casting a ballot, the caller asking to decide) are
//! opaque strings supplied by the hosting environment; nothing here checks
//! them beyond comparing with the stored administrator identity.

use vstd::prelude::*;

use crate::errors::VotingError;
use crate::registry::CandidateRegistry;
use crate::registry::dedup_first;
use crate::registry::distinct_seq;
use crate::store::BallotStore;
use crate::store::ballot_list;
use crate::store::lemma_upsert_lookup;
use crate::store::lemma_upsert_members;
use crate::store::lookup;
use crate::store::upsert;
use crate::tally::compute_winner;
use crate::tally::is_borda_winner;
use crate::tally::lemma_no_ballots_no_winner;

verus! {

/// The decision lock: initially open, and decided at most once, after
/// which the recorded tally result never changes. The recorded result may
/// itself be empty when no ballot had awarded a point at decision time.
pub enum Decision {
    Open,
    Decided(Option<String>),
}

/// Every identifier of the ballot `b` is a registered candidate.
pub open spec fn ballot_in_registry(cands: Seq<Seq<char>>, b: Seq<Seq<char>>) -> bool {
    forall|t: int| 0 <= t < b.len() ==> cands.contains(b[t])
}

/// A ballot the store may admit: no identifier twice, all registered.
pub open spec fn ballot_valid(cands: Seq<Seq<char>>, b: Seq<Seq<char>>) -> bool {
    distinct_seq(b) && ballot_in_registry(cands, b)
}

/// Does the ballot list some identifier twice?
fn has_duplicate(order: &Vec<String>) -> (r: bool)
    ensures
        r == !distinct_seq(order.deep_view()),
{
    let ghost ov = order.deep_view();
    let m = order.len();
    let mut i: usize = 0;
    while i < m
        invariant
            i <= m,
            m == ov.len(),
            ov == order.deep_view(),
            forall|a: int, b: int| 0 <= a < b < m && a < i ==> ov[a] != ov[b],
        decreases m - i,
    {
        let mut j: usize = i + 1;
        while j < m
            invariant
                i < j <= m,
                m == ov.len(),
                ov == order.deep_view(),
                m == order.len(),
                forall|b: int| i < b < j ==> ov[i as int] != ov[b],
            decreases m - j,
        {
            if order[i] == order[j] {
                assert(ov[i as int] == ov[j as int]);
                return true;
            }
            j = j + 1;
        }
        i = i + 1;
    }
    false
}

/// Are all the ballot's identifiers registered?
fn all_registered(reg: &CandidateRegistry, order: &Vec<String>) -> (r: bool)
    ensures
        r == ballot_in_registry(reg@, order.deep_view()),
{
    let ghost ov = order.deep_view();
    let m = order.len();
    let mut i: usize = 0;
    while i < m
        invariant
            i <= m,
            m == ov.len(),
            ov == order.deep_view(),
            m == order.len(),
            forall|t: int| 0 <= t < i ==> reg@.contains(ov[t]),
        decreases m - i,
    {
        if !reg.contains(&order[i]) {
            assert(!reg@.contains(ov[i as int]));
            return false;
        }
        i = i + 1;
    }
    true
}

/// The contract instance: registry, ballot store, administrator identity
/// and the decision lock.
pub struct RankedChoiceVoting {
    pub registry: CandidateRegistry,
    pub store: BallotStore,
    pub admin: String,
    pub decision: Decision,
}

impl RankedChoiceVoting {
    /// The state invariant: the registry and store are well formed, every
    /// stored ballot was admitted against the registry, and a decided
    /// winner is a registered candidate.
    pub open spec fn wf(&self) -> bool {
        &&& self.registry.wf()
        &&& self.store.wf()
        &&& forall|i: int|
            0 <= i < self.store@.len() ==> ballot_valid(
                self.registry@,
                #[trigger] self.store@[i].1,
            )
        &&& match self.decision {
            Decision::Decided(Some(w)) => self.registry@.contains(w@),
            _ => true,
        }
    }

    /// Creates the one instance for a deployment: fails when one exists
    /// already, and otherwise registers the given candidates (duplicates
    /// collapse silently) with an empty store and an open decision lock,
    /// owned by administrator `admin`.
    pub fn new(state_exists: bool, admin: String, candidates: Vec<String>) -> (r: Result<
        RankedChoiceVoting,
        VotingError,
    >)
        ensures
            state_exists ==> r == Err::<RankedChoiceVoting, VotingError>(
                VotingError::AlreadyInitialized,
            ),
            !state_exists ==> ({
                &&& r matches Ok(s)
                &&& s.registry@ == dedup_first(candidates.deep_view())
                &&& forall|c: Seq<char>|
                    s.registry@.contains(c) <==> candidates.deep_view().contains(c)
                &&& s.store@ == Seq::<(Seq<char>, Seq<Seq<char>>)>::empty()
                &&& s.admin == admin
                &&& s.decision is Open
                &&& s.wf()
            }),
    {
        if state_exists {
            return Err(VotingError::AlreadyInitialized);
        }
        let registry = CandidateRegistry::new(candidates);
        let store = BallotStore::new();
        Ok(RankedChoiceVoting { registry, store, admin, decision: Decision::Open })
    }

    /// Casts `voter`'s ballot. A ballot that lists a candidate twice, or
    /// lists an unregistered candidate, is rejected whole; an admitted
    /// ballot replaces any earlier ballot of the same voter. A ballot cast
    /// after the winner was decided is stored all the same; it no longer
    /// affects the reported winner.
    pub fn vote(&mut self, voter: String, order: Vec<String>) -> (r: Result<(), VotingError>)
        requires
            old(self).wf(),
        ensures
            final(self).wf(),
            final(self).registry == old(self).registry,
            final(self).admin == old(self).admin,
            final(self).decision == old(self).decision,
            !distinct_seq(order.deep_view()) ==> r == Err::<(), VotingError>(
                VotingError::DuplicateCandidateInBallot,
            ) && *final(self) == *old(self),
            distinct_seq(order.deep_view()) && !ballot_in_registry(
                old(self).registry@,
                order.deep_view(),
            ) ==> ({
                &&& r == Err::<(), VotingError>(VotingError::InvalidCandidateInBallot)
                &&& *final(self) == *old(self)
            }),
            ballot_valid(old(self).registry@, order.deep_view()) ==> ({
                &&& r == Ok::<(), VotingError>(())
                &&& final(self).store@ == upsert(old(self).store@, voter@, order.deep_view())
                &&& lookup(final(self).store@, voter@) == Some(order.deep_view())
                &&& forall|k: Seq<char>|
                    k != voter@ ==> lookup(final(self).store@, k) == lookup(
                        old(self).store@,
                        k,
                    )
            }),
    {
        if has_duplicate(&order) {
            return Err(VotingError::DuplicateCandidateInBallot);
        }
        if !all_registered(&self.registry, &order) {
            return Err(VotingError::InvalidCandidateInBallot);
        }
        let ghost olds = self.store@;
        let ghost k = voter@;
        let ghost v = order.deep_view();
        self.store.upsert(voter, order);
        proof {
            lemma_upsert_lookup(olds, k, v, k);
            assert forall|k2: Seq<char>| k2 != k implies lookup(upsert(olds, k, v), k2)
                == lookup(olds, k2) by {
                lemma_upsert_lookup(olds, k, v, k2);
            }
            assert forall|i: int| 0 <= i < self.store@.len() implies ballot_valid(
                self.registry@,
                #[trigger] self.store@[i].1,
            ) by {
                lemma_upsert_members(olds, k, v, i);
                if self.store@[i] == (k, v) {
                } else {
                    let m = choose|m: int| 0 <= m < olds.len() && olds[m] == self.store@[i];
                    assert(ballot_valid(self.registry@, olds[m].1));
                }
            }
        }
        Ok(())
    }

    /// The tally over the current store: scores every registered candidate
    /// and picks the winner, if any.
    pub fn calculate_winner(&self) -> (r: Option<String>)
        ensures
            is_borda_winner(self.registry@, ballot_list(self.store@), r.deep_view()),
    {
        let cands = self.registry.list();
        let ballots = self.store.all_ballots();
        compute_winner(&cands, &ballots)
    }

    /// The current winner: the frozen result once decided, and otherwise
    /// the live tally over the ballots cast so far. With no ballots cast
    /// there is no winner.
    pub fn get_winner(&self) -> (r: Option<String>)
        ensures
            match self.decision {
                Decision::Decided(w) => r == w,
                Decision::Open => is_borda_winner(
                    self.registry@,
                    ballot_list(self.store@),
                    r.deep_view(),
                ),
            },
            self.decision is Open && self.store@.len() == 0 ==> r is None,
    {
        match &self.decision {
            Decision::Decided(w) => match w {
                Some(x) => Some(x.clone()),
                None => None,
            },
            Decision::Open => {
                let r = self.calculate_winner();
                proof {
                    if self.store@.len() == 0 {
                        assert(ballot_list(self.store@) =~= Seq::<Seq<Seq<char>>>::empty());
                        lemma_no_ballots_no_winner(self.registry@, r.deep_view());
                    }
                }
                r
            },
        }
    }

    /// Locks the winner: only once, and only for the administrator. On
    /// success the tally runs one last time and its result is frozen; the
    /// registry, the store and the administrator are never touched.
    pub fn decide(&mut self, caller: String) -> (r: Result<(), VotingError>)
        requires
            old(self).wf(),
        ensures
            final(self).wf(),
            final(self).registry == old(self).registry,
            final(self).store == old(self).store,
            final(self).admin == old(self).admin,
            old(self).decision is Decided ==> r == Err::<(), VotingError>(
                VotingError::AlreadyDecided,
            ) && *final(self) == *old(self),
            old(self).decision is Open && caller@ != old(self).admin@ ==> r == Err::<(),
                VotingError,
            >(VotingError::NotAuthorized) && *final(self) == *old(self),
            old(self).decision is Open && caller@ == old(self).admin@ ==> ({
                &&& r == Ok::<(), VotingError>(())
                &&& final(self).decision matches Decision::Decided(w)
                &&& is_borda_winner(
                    old(self).registry@,
                    ballot_list(old(self).store@),
                    w.deep_view(),
                )
            }),
    {
        match &self.decision {
            Decision::Decided(_) => {
                return Err(VotingError::AlreadyDecided);
            },
            Decision::Open => {},
        }
        if !(caller == self.admin) {
            return Err(VotingError::NotAuthorized);
        }
        let w = self.calculate_winner();
        proof {
            if w is Some {
                assert(self.registry@.contains(w.unwrap()@));
            }
        }
        self.decision = Decision::Decided(w);
        Ok(())
    }

    /// Has the winner been decided and locked?
    pub fn is_decided(&self) -> (r: bool)
        ensures
            r == (self.decision is Decided),
    {
        match &self.decision {
            Decision::Decided(_) => true,
            Decision::Open => false,
        }
    }

    /// The registered candidates, in no particular order.
    pub fn get_candidates(&self) -> (r: Vec<String>)
        ensures
            r.deep_view() == self.registry@,
    {
        self.registry.list()
    }
}

/// Every ballot the store has admitted lists no identifier twice and only
/// identifiers of registered candidates.
pub proof fn lemma_stored_ballots_valid(s: RankedChoiceVoting)
    requires
        s.wf(),
    ensures
        forall|i: int| 0 <= i < s.store@.len() ==> distinct_seq(#[trigger] s.store@[i].1),
        forall|i: int, t: int|
            0 <= i < s.store@.len() && 0 <= t < s.store@[i].1.len() ==> s.registry@.contains(
                #[trigger] s.store@[i].1[t],
            ),
{
    assert forall|i: int| 0 <= i < s.store@.len() implies distinct_seq(
        #[trigger] s.store@[i].1,
    ) by {
        assert(ballot_valid(s.registry@, s.store@[i].1));
    }
    assert forall|i: int, t: int|
        0 <= i < s.store@.len() && 0 <= t < s.store@[i].1.len() implies s.registry@.contains(
        #[trigger] s.store@[i].1[t],
    ) by {
        assert(ballot_valid(s.registry@, s.store@[i].1));
    }
}

} // verus!
