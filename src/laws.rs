//! Properties of the indices that hold for every dataset.

use vstd::prelude::*;
use crate::index::{first_claim, lemma_first_claim_found, lemma_first_claim_source, winner, Claim};
use crate::language::{aliases_of, all_claims, claims_of, extension_key, extensions_of, owns_key, Language, Lookup};
use crate::languages::{lookup, Languages};
use crate::text::lower_of;

verus! {

/// Each claim that a record makes is among the claims of the dataset.
proof fn lemma_claim_listed(kind: Lookup, recs: Seq<Language>, i: int, m: int)
    requires
        0 <= i < recs.len(),
        0 <= m < claims_of(kind, recs[i], i as nat).len(),
    ensures
        exists|p: int|
            0 <= p < all_claims(kind, recs).len() && #[trigger] all_claims(kind, recs)[p]
                == claims_of(kind, recs[i], i as nat)[m],
    decreases recs.len(),
{
    let front = all_claims(kind, recs.drop_last());
    let last = claims_of(kind, recs.last(), (recs.len() - 1) as nat);
    let all = all_claims(kind, recs);
    assert(all == front + last);
    if i == recs.len() - 1 {
        assert(all[front.len() + m] == last[m]);
    } else {
        assert(recs.drop_last()[i] == recs[i]);
        lemma_claim_listed(kind, recs.drop_last(), i, m);
        let p = choose|p: int|
            0 <= p < front.len() && #[trigger] front[p] == claims_of(kind, recs[i], i as nat)[m];
        assert(all[p] == front[p]);
    }
}

/// Each claim of the dataset is made by one of its records.
proof fn lemma_claim_origin(kind: Lookup, recs: Seq<Language>, p: int)
    requires
        0 <= p < all_claims(kind, recs).len(),
    ensures
        exists|i: int, m: int|
            0 <= i < recs.len() && 0 <= m < claims_of(kind, recs[i], i as nat).len()
                && all_claims(kind, recs)[p] == #[trigger] claims_of(kind, recs[i], i as nat)[m],
    decreases recs.len(),
{
    let front = all_claims(kind, recs.drop_last());
    let i = recs.len() - 1;
    let last = claims_of(kind, recs[i], i as nat);
    let all = all_claims(kind, recs);
    assert(all == front + last);
    if p < front.len() {
        lemma_claim_origin(kind, recs.drop_last(), p);
        let (a, m) = choose|a: int, m: int|
            0 <= a < recs.drop_last().len() && 0 <= m < claims_of(
                kind,
                recs.drop_last()[a],
                a as nat,
            ).len() && front[p] == #[trigger] claims_of(kind, recs.drop_last()[a], a as nat)[m];
        assert(recs.drop_last()[a] == recs[a]);
        assert(all[p] == claims_of(kind, recs[a], a as nat)[m]);
    } else {
        assert(all[p] == last[p - front.len()]);
    }
}

/// The claim that decides a key, found by `lemma_first_claim_source`, is
/// made by some record.
proof fn lemma_winning_claim(kind: Lookup, recs: Seq<Language>, k: Seq<char>, preferred_only: bool)
    requires
        first_claim(all_claims(kind, recs), k, preferred_only) is Some,
    ensures
        exists|i: int, m: int|
            0 <= i < recs.len() && 0 <= m < claims_of(kind, recs[i], i as nat).len() && {
                let c = #[trigger] claims_of(kind, recs[i], i as nat)[m];
                &&& c.key == k
                &&& c.preferred || !preferred_only
                &&& c.record == i
                &&& first_claim(all_claims(kind, recs), k, preferred_only) == Some(i as nat)
            },
{
    let all = all_claims(kind, recs);
    lemma_first_claim_source(all, k, preferred_only);
    let p = choose|p: int|
        0 <= p < all.len() && all[p].key == k && (all[p].preferred || !preferred_only)
            && first_claim(all, k, preferred_only) == Some(#[trigger] all[p].record);
    lemma_claim_origin(kind, recs, p);
    let (i, m) = choose|i: int, m: int|
        0 <= i < recs.len() && 0 <= m < claims_of(kind, recs[i], i as nat).len() && all[p]
            == #[trigger] claims_of(kind, recs[i], i as nat)[m];
    assert(claims_of(kind, recs[i], i as nat)[m].record == i) by {
        match kind {
            Lookup::ByName => {
                if m > 0 {
                    assert(claims_of(kind, recs[i], i as nat)[m] == aliases_of(recs[i]).map_values(
                        |a: String| Claim { key: lower_of(a@), record: i as nat, preferred: false },
                    )[m - 1]);
                }
            },
            _ => {},
        }
    }
}

/// Name lookup ignores case: every string that lowercases like a record's
/// canonical name or one of its aliases finds a record, and all such strings
/// find the same one.
pub proof fn lemma_name_lookup_ignores_case(
    l: &Languages,
    i: int,
    name: Seq<char>,
    v: Seq<char>,
    w: Seq<char>,
)
    requires
        0 <= i < l@.len(),
        name == l@[i].name@ || exists|j: int|
            0 <= j < aliases_of(l@[i]).len() && #[trigger] aliases_of(l@[i])[j]@ == name,
        lower_of(v) == lower_of(name),
        lower_of(w) == lower_of(name),
    ensures
        lookup(Lookup::ByName, l@, lower_of(v)) is Some,
        lookup(Lookup::ByName, l@, lower_of(v)) == lookup(Lookup::ByName, l@, lower_of(w)),
{
    let recs = l@;
    let mine = claims_of(Lookup::ByName, recs[i], i as nat);
    let m = if name == recs[i].name@ {
        0
    } else {
        let j = choose|j: int|
            0 <= j < aliases_of(recs[i]).len() && #[trigger] aliases_of(recs[i])[j]@ == name;
        assert(mine[j + 1] == aliases_of(recs[i]).map_values(
            |a: String| Claim { key: lower_of(a@), record: i as nat, preferred: false },
        )[j]);
        j + 1
    };
    assert(mine[m].key == lower_of(name));
    lemma_claim_listed(Lookup::ByName, recs, i, m);
    let all = all_claims(Lookup::ByName, recs);
    let p = choose|p: int| 0 <= p < all.len() && #[trigger] all[p] == mine[m];
    lemma_first_claim_found(all, lower_of(name), false, p);
}

/// Where a record declares an extension that equals, up to ASCII case, its
/// own name or an alias, the extension finds a record of that kind: one that
/// declares the extension and owns it. A record that does not own the
/// extension is never returned in its place.
pub proof fn lemma_extension_prefers_owner(l: &Languages, i: int, e: int, k: Seq<char>)
    requires
        0 <= i < l@.len(),
        0 <= e < extensions_of(l@[i]).len(),
        extension_key(extensions_of(l@[i])[e]@) == k,
        owns_key(l@[i], k),
    ensures
        exists|w: int|
            0 <= w < l@.len() && winner(all_claims(Lookup::ByExtension, l@), k) == Some(w as nat)
                && lookup(Lookup::ByExtension, l@, k) == Some(l@[w]) && owns_key(
                #[trigger] l@[w],
                k,
            ) && exists|e2: int|
                0 <= e2 < extensions_of(l@[w]).len() && extension_key(
                    #[trigger] extensions_of(l@[w])[e2]@,
                ) == k,
{
    let recs = l@;
    let kind = Lookup::ByExtension;
    let all = all_claims(kind, recs);
    lemma_claim_listed(kind, recs, i, e);
    let p = choose|p: int| 0 <= p < all.len() && #[trigger] all[p] == claims_of(kind, recs[i], i as nat)[e];
    lemma_first_claim_found(all, k, true, p);
    lemma_winning_claim(kind, recs, k, true);
    let (w, m) = choose|w: int, m: int|
        0 <= w < recs.len() && 0 <= m < claims_of(kind, recs[w], w as nat).len() && {
            let c = #[trigger] claims_of(kind, recs[w], w as nat)[m];
            &&& c.key == k
            &&& c.preferred || !true
            &&& c.record == w
            &&& first_claim(all, k, true) == Some(w as nat)
        };
    assert(extension_key(extensions_of(recs[w])[m]@) == k);
}

/// Where a record's editor mode equals its lowercased name, the mode finds a
/// record of that kind: one whose mode and lowercased name both equal it.
pub proof fn lemma_mode_prefers_name_match(l: &Languages, i: int, k: Seq<char>)
    requires
        0 <= i < l@.len(),
        l@[i].codemirror_mode matches Some(m) && lower_of(m@) == k,
        lower_of(l@[i].name@) == k,
    ensures
        exists|w: int|
            0 <= w < l@.len() && winner(all_claims(Lookup::ByMode, l@), k) == Some(w as nat)
                && lookup(Lookup::ByMode, l@, k) == Some(l@[w]) && lower_of(
                (#[trigger] l@[w]).name@,
            ) == k && (l@[w].codemirror_mode matches Some(m) && lower_of(m@) == k),
{
    let recs = l@;
    let kind = Lookup::ByMode;
    let all = all_claims(kind, recs);
    lemma_claim_listed(kind, recs, i, 0);
    let p = choose|p: int| 0 <= p < all.len() && #[trigger] all[p] == claims_of(kind, recs[i], i as nat)[0];
    lemma_first_claim_found(all, k, true, p);
    lemma_winning_claim(kind, recs, k, true);
}

/// Indices built from the same records answer every query alike.
pub proof fn lemma_build_deterministic(a: &Languages, b: &Languages, kind: Lookup, k: Seq<char>)
    requires
        a.wf(),
        b.wf(),
        a@ == b@,
    ensures
        lookup(kind, a@, k) == lookup(kind, b@, k),
{
}

} // verus!
