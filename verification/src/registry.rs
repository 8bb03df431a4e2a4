//! The candidate registry: the finite set of valid choices, fixed once at
//! construction. Duplicates in the construction input collapse silently;
//! afterwards the registry never changes.

use vstd::prelude::*;

verus! {

/// No two elements of the sequence are equal.
pub open spec fn distinct_seq(s: Seq<Seq<char>>) -> bool {
    forall|i: int, j: int| 0 <= i < j < s.len() ==> s[i] != s[j]
}

/// The input with every repeated identifier dropped: the first occurrence
/// of each identifier is kept, in input order.
pub open spec fn dedup_first(s: Seq<Seq<char>>) -> Seq<Seq<char>>
    decreases s.len(),
{
    if s.len() == 0 {
        Seq::<Seq<char>>::empty()
    } else {
        let d = dedup_first(s.drop_last());
        if d.contains(s.last()) {
            d
        } else {
            d.push(s.last())
        }
    }
}

/// Deduplication keeps exactly the members of the input, each once.
pub proof fn lemma_dedup_first(s: Seq<Seq<char>>)
    ensures
        distinct_seq(dedup_first(s)),
        forall|c: Seq<char>| dedup_first(s).contains(c) <==> s.contains(c),
    decreases s.len(),
{
    if s.len() > 0 {
        lemma_dedup_first(s.drop_last());
        let d = dedup_first(s.drop_last());
        assert forall|c: Seq<char>| s.contains(c) implies dedup_first(s).contains(c) by {
            let i = choose|i: int| 0 <= i < s.len() && s[i] == c;
            if i < s.len() - 1 {
                assert(s.drop_last()[i] == c);
                assert(s.drop_last().contains(c));
                if !d.contains(s.last()) {
                    let k = choose|k: int| 0 <= k < d.len() && d[k] == c;
                    assert(d.push(s.last())[k] == c);
                }
            } else {
                if d.contains(s.last()) {
                } else {
                    assert(d.push(s.last()).last() == c);
                }
            }
        }
        assert forall|c: Seq<char>| dedup_first(s).contains(c) implies s.contains(c) by {
            if !d.contains(s.last()) {
                let k = choose|k: int| 0 <= k < d.len() + 1 && d.push(s.last())[k] == c;
                if k < d.len() {
                    assert(d.contains(c));
                }
            }
            if d.contains(c) {
                assert(s.drop_last().contains(c));
                let i = choose|i: int| 0 <= i < s.len() - 1 && s.drop_last()[i] == c;
                assert(s[i] == c);
            } else {
                assert(c == s.last());
                assert(s[s.len() - 1] == c);
            }
        }
        if !d.contains(s.last()) {
            assert forall|i: int, j: int|
                0 <= i < j < d.push(s.last()).len() implies d.push(s.last())[i] != d.push(
                s.last(),
            )[j] by {
                if j == d.len() {
                    assert(d.push(s.last())[i] == d[i]);
                    assert(d.contains(d[i]));
                }
            }
        }
    }
}

/// Clones a list of identifiers.
pub(crate) fn clone_strings(v: &Vec<String>) -> (r: Vec<String>)
    ensures
        r@ == v@,
{
    let mut r: Vec<String> = Vec::new();
    let mut j: usize = 0;
    while j < v.len()
        invariant
            j <= v.len(),
            r@ =~= v@.take(j as int),
        decreases v.len() - j,
    {
        r.push(v[j].clone());
        j = j + 1;
    }
    proof {
        assert(r@ =~= v@);
    }
    r
}

/// Is `x` one of the strings of `v`?
pub(crate) fn contains_string(v: &Vec<String>, x: &String) -> (r: bool)
    ensures
        r == v.deep_view().contains(x@),
{
    let mut j: usize = 0;
    while j < v.len()
        invariant
            j <= v.len(),
            forall|k: int| 0 <= k < j ==> v.deep_view()[k] != x@,
        decreases v.len() - j,
    {
        if v[j] == *x {
            assert(v.deep_view()[j as int] == x@);
            return true;
        }
        j = j + 1;
    }
    assert(forall|k: int| 0 <= k < v.deep_view().len() ==> v.deep_view()[k] != x@);
    false
}

/// The immutable finite set of registered candidates.
pub struct CandidateRegistry {
    pub ids: Vec<String>,
}

impl View for CandidateRegistry {
    type V = Seq<Seq<char>>;

    open spec fn view(&self) -> Seq<Seq<char>> {
        self.ids.deep_view()
    }
}

impl CandidateRegistry {
    /// The registry never lists an identifier twice.
    pub open spec fn wf(&self) -> bool {
        distinct_seq(self@)
    }

    /// Builds the registry from the given identifiers, collapsing
    /// duplicates silently; the first occurrence of each is kept.
    pub fn new(input: Vec<String>) -> (r: CandidateRegistry)
        ensures
            r@ == dedup_first(input.deep_view()),
            forall|c: Seq<char>| r@.contains(c) <==> input.deep_view().contains(c),
            r.wf(),
    {
        let ghost iv = input.deep_view();
        let mut ids: Vec<String> = Vec::new();
        let mut i: usize = 0;
        proof {
            assert(iv.take(0) =~= Seq::<Seq<char>>::empty());
        }
        while i < input.len()
            invariant
                i <= input.len(),
                iv == input.deep_view(),
                ids.deep_view() == dedup_first(iv.take(i as int)),
            decreases input.len() - i,
        {
            proof {
                assert(iv.take(i as int + 1).drop_last() =~= iv.take(i as int));
                assert(iv.take(i as int + 1).last() == iv[i as int]);
            }
            if !contains_string(&ids, &input[i]) {
                let ghost before = ids.deep_view();
                ids.push(input[i].clone());
                proof {
                    assert(ids.deep_view() =~= before.push(iv[i as int]));
                }
            }
            i = i + 1;
        }
        proof {
            assert(iv.take(input.len() as int) =~= iv);
            lemma_dedup_first(iv);
        }
        CandidateRegistry { ids }
    }

    /// Is `id` a registered candidate?
    pub fn contains(&self, id: &String) -> (r: bool)
        ensures
            r == self@.contains(id@),
    {
        contains_string(&self.ids, id)
    }

    /// The registered candidates. The order carries no meaning.
    pub fn list(&self) -> (r: Vec<String>)
        ensures
            r.deep_view() == self@,
    {
        let r = clone_strings(&self.ids);
        proof {
            assert(r.deep_view() =~= self.ids.deep_view());
        }
        r
    }
}

} // verus!
