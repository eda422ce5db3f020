//! A lookup index built from a stream of claims, where a claim asks that a
//! key lead to a record. The first preferred claim on a key wins; a key with
//! no preferred claim goes to its first claim.

use vstd::prelude::*;

verus! {

/// One request, in processing order, that `key` lead to record `record`.
pub struct Claim {
    pub key: Seq<char>,
    pub record: nat,
    pub preferred: bool,
}

/// The record of the first claim on `k` in `s` (only among preferred claims
/// when `preferred_only` holds).
pub open spec fn first_claim(s: Seq<Claim>, k: Seq<char>, preferred_only: bool) -> Option<nat>
    decreases s.len(),
{
    if s.len() == 0 {
        None
    } else {
        let earlier = first_claim(s.drop_last(), k, preferred_only);
        if earlier is Some {
            earlier
        } else if s.last().key == k && (s.last().preferred || !preferred_only) {
            Some(s.last().record)
        } else {
            None
        }
    }
}

/// The record that key `k` leads to once every claim of `s` is processed.
pub open spec fn winner(s: Seq<Claim>, k: Seq<char>) -> Option<nat> {
    if first_claim(s, k, true) is Some {
        first_claim(s, k, true)
    } else {
        first_claim(s, k, false)
    }
}

/// A claim on `k` in `s` makes `first_claim` find one, at or before it.
pub proof fn lemma_first_claim_found(s: Seq<Claim>, k: Seq<char>, preferred_only: bool, j: int)
    requires
        0 <= j < s.len(),
        s[j].key == k,
        s[j].preferred || !preferred_only,
    ensures
        first_claim(s, k, preferred_only) is Some,
        exists|m: int|
            0 <= m <= j && s[m].key == k && (s[m].preferred || !preferred_only)
                && first_claim(s, k, preferred_only) == Some(#[trigger] s[m].record),
    decreases s.len(),
{
    if j == s.len() - 1 {
        if first_claim(s.drop_last(), k, preferred_only) is Some {
            lemma_first_claim_source(s.drop_last(), k, preferred_only);
            let m = choose|m: int|
                0 <= m < s.drop_last().len() && s.drop_last()[m].key == k
                    && (s.drop_last()[m].preferred || !preferred_only)
                    && first_claim(s.drop_last(), k, preferred_only) == Some(
                    #[trigger] s.drop_last()[m].record,
                );
            assert(s[m] == s.drop_last()[m]);
        } else {
            assert(s[j] == s.last());
        }
    } else {
        lemma_first_claim_found(s.drop_last(), k, preferred_only, j);
        let m = choose|m: int|
            0 <= m <= j && s.drop_last()[m].key == k && (s.drop_last()[m].preferred
                || !preferred_only) && first_claim(s.drop_last(), k, preferred_only) == Some(
                #[trigger] s.drop_last()[m].record,
            );
        assert(s[m] == s.drop_last()[m]);
    }
}

/// What `first_claim` finds is the record of some claim on `k` in `s`.
pub proof fn lemma_first_claim_source(s: Seq<Claim>, k: Seq<char>, preferred_only: bool)
    requires
        first_claim(s, k, preferred_only) is Some,
    ensures
        exists|m: int|
            0 <= m < s.len() && s[m].key == k && (s[m].preferred || !preferred_only)
                && first_claim(s, k, preferred_only) == Some(#[trigger] s[m].record),
    decreases s.len(),
{
    if first_claim(s.drop_last(), k, preferred_only) is Some {
        lemma_first_claim_source(s.drop_last(), k, preferred_only);
        let m = choose|m: int|
            0 <= m < s.drop_last().len() && s.drop_last()[m].key == k && (
            s.drop_last()[m].preferred || !preferred_only) && first_claim(
                s.drop_last(),
                k,
                preferred_only,
            ) == Some(#[trigger] s.drop_last()[m].record);
        assert(s[m] == s.drop_last()[m]);
    } else {
        assert(s[s.len() - 1] == s.last());
    }
}

/// A key with no claim has no preferred claim either.
proof fn lemma_unclaimed(s: Seq<Claim>, k: Seq<char>)
    requires
        first_claim(s, k, false) is None,
    ensures
        first_claim(s, k, true) is None,
        winner(s, k) is None,
{
    if first_claim(s, k, true) is Some {
        lemma_first_claim_source(s, k, true);
        let m = choose|m: int|
            0 <= m < s.len() && s[m].key == k && (s[m].preferred || !true) && first_claim(s, k, true)
                == Some(#[trigger] s[m].record);
        lemma_first_claim_found(s, k, false, m);
    }
}

/// One key of an index, the record it leads to, and whether a preferred
/// claim put it there.
pub struct Entry {
    pub key: String,
    pub record: usize,
    pub preferred: bool,
}

/// An index over records `0..n`, as built from a stream of claims.
pub struct Index {
    pub entries: Vec<Entry>,
}

impl Index {
    /// The index answers for the claims of `s`: keys are distinct, each key
    /// of `s` has an entry, and each entry holds the winner of its key.
    pub open spec fn models(&self, s: Seq<Claim>, n: nat) -> bool {
        &&& forall|i: int, j: int|
            0 <= i < j < self.entries@.len() ==> #[trigger] self.entries@[i].key@
                != #[trigger] self.entries@[j].key@
        &&& forall|i: int|
            0 <= i < self.entries@.len() ==> {
                let e = #[trigger] self.entries@[i];
                &&& e.record < n
                &&& winner(s, e.key@) == Some(e.record as nat)
                &&& e.preferred == (first_claim(s, e.key@, true) is Some)
            }
        &&& forall|k: Seq<char>|
            #[trigger] first_claim(s, k, false) is Some ==> exists|i: int|
                0 <= i < self.entries@.len() && #[trigger] self.entries@[i].key@ == k
    }

    pub fn new() -> (r: Index)
        ensures
            forall|n: nat| r.models(Seq::empty(), n),
    {
        Index { entries: Vec::new() }
    }

    /// The position of the entry for `key`, if there is one.
    fn position(&self, key: &String) -> (r: Option<usize>)
        ensures
            match r {
                Some(i) => i < self.entries@.len() && self.entries@[i as int].key@ == key@,
                None => forall|i: int|
                    0 <= i < self.entries@.len() ==> self.entries@[i].key@ != key@,
            },
    {
        let mut i: usize = 0;
        while i < self.entries.len()
            invariant
                i <= self.entries@.len(),
                forall|j: int| 0 <= j < i ==> self.entries@[j].key@ != key@,
            decreases self.entries@.len() - i,
        {
            if self.entries[i].key == *key {
                return Some(i);
            }
            i = i + 1;
        }
        None
    }

    /// The record that `key` leads to.
    pub fn get(&self, key: &String, Ghost(s): Ghost<Seq<Claim>>, Ghost(n): Ghost<nat>) -> (r: Option<
        usize,
    >)
        requires
            self.models(s, n),
        ensures
            r is Some <==> winner(s, key@) is Some,
            r matches Some(i) ==> winner(s, key@) == Some(i as nat) && i < n,
    {
        match self.position(key) {
            Some(i) => Some(self.entries[i].record),
            None => {
                proof {
                    lemma_unclaimed(s, key@);
                }
                None
            },
        }
    }

    /// Processes one more claim: the key's entry is created, or replaced
    /// where a preferred claim meets an entry that no preferred claim made.
    pub fn claim(
        &mut self,
        key: String,
        record: usize,
        preferred: bool,
        Ghost(s): Ghost<Seq<Claim>>,
        Ghost(n): Ghost<nat>,
    )
        requires
            old(self).models(s, n),
            record < n,
        ensures
            final(self).models(s.push(Claim { key: key@, record: record as nat, preferred }), n),
    {
        let ghost c = Claim { key: key@, record: record as nat, preferred };
        let ghost t = s.push(c);
        let ghost old_entries = self.entries@;
        let pos = self.position(&key);
        match pos {
            Some(p) => {
                proof {
                    lemma_push_claim(s, c, key@);
                }
                if preferred && !self.entries[p].preferred {
                    self.entries.set(p, Entry { key, record, preferred });
                }
            },
            None => {
                proof {
                    lemma_unclaimed(s, key@);
                    lemma_push_claim(s, c, key@);
                }
                self.entries.push(Entry { key, record, preferred });
            },
        }
        proof {
            let es = self.entries@;
            assert forall|i: int| 0 <= i < es.len() implies {
                let e = #[trigger] es[i];
                &&& e.record < n
                &&& winner(t, e.key@) == Some(e.record as nat)
                &&& e.preferred == (first_claim(t, e.key@, true) is Some)
            } by {
                lemma_push_claim(s, c, es[i].key@);
                if i < old_entries.len() {
                    lemma_push_claim(s, c, old_entries[i].key@);
                }
            }
            assert forall|k: Seq<char>| #[trigger] first_claim(t, k, false) is Some implies exists|
                i: int,
            | 0 <= i < es.len() && #[trigger] es[i].key@ == k by {
                lemma_push_claim(s, c, k);
                if k != c.key {
                    let i = choose|i: int|
                        0 <= i < old_entries.len() && #[trigger] old_entries[i].key@ == k;
                    assert(es[i].key@ == k);
                } else {
                    match pos {
                        Some(p) => assert(es[p as int].key@ == k),
                        None => assert(es[es.len() - 1].key@ == k),
                    }
                }
            }
        }
    }
}

/// How one more claim changes what `first_claim` finds.
proof fn lemma_push_claim(s: Seq<Claim>, c: Claim, k: Seq<char>)
    ensures
        forall|b: bool|
            #[trigger] first_claim(s.push(c), k, b) == if first_claim(s, k, b) is Some {
                first_claim(s, k, b)
            } else if c.key == k && (c.preferred || !b) {
                Some(c.record)
            } else {
                None
            },
{
    assert(s.push(c).drop_last() == s);
}

} // verus!
