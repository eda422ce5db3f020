//! Building the three indices from a sequence of records.

use vstd::prelude::*;
use crate::index::{Claim, Index};
use crate::language::{
    aliases_of, all_claims, claims_of, extension_key, extensions_of, lemma_all_claims_step,
    owns_key, Language, Lookup,
};
use crate::text::{eq_ignore_ascii_case, lowercase, same_ignoring_ascii_case, without_leading_dot};

verus! {

/// The index of canonical names and aliases: the first claim on a key wins.
pub(crate) fn build_name_index(records: &Vec<Language>) -> (r: Index)
    ensures
        r.models(all_claims(Lookup::ByName, records@), records@.len()),
{
    let ghost n = records@.len();
    let mut index = Index::new();
    let mut i: usize = 0;
    while i < records.len()
        invariant
            i <= n == records@.len(),
            index.models(all_claims(Lookup::ByName, records@.take(i as int)), n),
        decreases n - i,
    {
        let r = &records[i];
        let ghost before = all_claims(Lookup::ByName, records@.take(i as int));
        let ghost mine = claims_of(Lookup::ByName, *r, i as nat);
        index.claim(lowercase(r.name.as_str()), i, false, Ghost(before), Ghost(n));
        assert(before.push(mine[0]) == before + mine.take(1));
        match &r.aliases {
            Some(aliases) => {
                let mut j: usize = 0;
                while j < aliases.len()
                    invariant
                        i < n == records@.len(),
                        r == records@[i as int],
                        r.aliases == Some(*aliases),
                        mine == claims_of(Lookup::ByName, *r, i as nat),
                        mine.len() == aliases@.len() + 1,
                        j <= aliases@.len(),
                        index.models(before + mine.take(j + 1 as int), n),
                    decreases aliases@.len() - j,
                {
                    let ghost so_far = before + mine.take(j + 1 as int);
                    index.claim(lowercase(aliases[j].as_str()), i, false, Ghost(so_far), Ghost(n));
                    assert(so_far.push(mine[j + 1 as int]) == before + mine.take(j + 2 as int));
                    j = j + 1;
                }
                assert(mine.take(aliases@.len() + 1 as int) == mine);
            },
            None => {
                assert(mine.take(1) == mine);
            },
        }
        proof {
            lemma_all_claims_step(Lookup::ByName, records@, i as int);
        }
        i = i + 1;
    }
    assert(records@.take(n as int) == records@);
    index
}

/// Whether `key` equals, up to ASCII case, the record's name or an alias.
fn owns(r: &Language, key: &str) -> (b: bool)
    ensures
        b == owns_key(*r, key@),
{
    if eq_ignore_ascii_case(r.name.as_str(), key) {
        return true;
    }
    match &r.aliases {
        Some(aliases) => {
            let mut j: usize = 0;
            while j < aliases.len()
                invariant
                    r.aliases == Some(*aliases),
                    j <= aliases@.len(),
                    forall|m: int|
                        0 <= m < j ==> !same_ignoring_ascii_case(
                            #[trigger] aliases_of(*r)[m]@,
                            key@,
                        ),
                decreases aliases@.len() - j,
            {
                if eq_ignore_ascii_case(aliases[j].as_str(), key) {
                    assert(same_ignoring_ascii_case(aliases_of(*r)[j as int]@, key@));
                    return true;
                }
                j = j + 1;
            }
            false
        },
        None => false,
    }
}

/// The index of extensions: a record whose name or alias equals the
/// extension is preferred; otherwise the first claim wins.
pub(crate) fn build_extension_index(records: &Vec<Language>) -> (r: Index)
    ensures
        r.models(all_claims(Lookup::ByExtension, records@), records@.len()),
{
    let ghost n = records@.len();
    let mut index = Index::new();
    let mut i: usize = 0;
    while i < records.len()
        invariant
            i <= n == records@.len(),
            index.models(all_claims(Lookup::ByExtension, records@.take(i as int)), n),
        decreases n - i,
    {
        let r = &records[i];
        let ghost before = all_claims(Lookup::ByExtension, records@.take(i as int));
        let ghost mine = claims_of(Lookup::ByExtension, *r, i as nat);
        match &r.extensions {
            Some(extensions) => {
                let mut j: usize = 0;
                while j < extensions.len()
                    invariant
                        i < n == records@.len(),
                        r == records@[i as int],
                        r.extensions == Some(*extensions),
                        mine == claims_of(Lookup::ByExtension, *r, i as nat),
                        mine.len() == extensions@.len(),
                        j <= extensions@.len(),
                        index.models(before + mine.take(j as int), n),
                    decreases extensions@.len() - j,
                {
                    let ghost so_far = before + mine.take(j as int);
                    let key = lowercase(without_leading_dot(extensions[j].as_str()));
                    assert(key@ == extension_key(extensions@[j as int]@));
                    let preferred = owns(r, key.as_str());
                    index.claim(key, i, preferred, Ghost(so_far), Ghost(n));
                    assert(so_far.push(mine[j as int]) == before + mine.take(j + 1 as int));
                    j = j + 1;
                }
                assert(mine.take(extensions@.len() as int) == mine);
            },
            None => {
                assert(mine.take(0) == mine);
            },
        }
        proof {
            lemma_all_claims_step(Lookup::ByExtension, records@, i as int);
        }
        i = i + 1;
    }
    assert(records@.take(n as int) == records@);
    index
}

/// The index of editor modes: a record whose lowercased name equals the
/// mode is preferred; otherwise the first claim wins.
pub(crate) fn build_mode_index(records: &Vec<Language>) -> (r: Index)
    ensures
        r.models(all_claims(Lookup::ByMode, records@), records@.len()),
{
    let ghost n = records@.len();
    let mut index = Index::new();
    let mut i: usize = 0;
    while i < records.len()
        invariant
            i <= n == records@.len(),
            index.models(all_claims(Lookup::ByMode, records@.take(i as int)), n),
        decreases n - i,
    {
        let r = &records[i];
        let ghost before = all_claims(Lookup::ByMode, records@.take(i as int));
        let ghost mine = claims_of(Lookup::ByMode, *r, i as nat);
        match &r.codemirror_mode {
            Some(mode) => {
                let key = lowercase(mode.as_str());
                let name = lowercase(r.name.as_str());
                let preferred = name == key;
                index.claim(key, i, preferred, Ghost(before), Ghost(n));
                assert(before.push(mine[0]) == before + mine);
            },
            None => {
                assert(before + mine == before);
            },
        }
        proof {
            lemma_all_claims_step(Lookup::ByMode, records@, i as int);
        }
        i = i + 1;
    }
    assert(records@.take(n as int) == records@);
    index
}

} // verus!
