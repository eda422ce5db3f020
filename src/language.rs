//! Language records and the claims that each one makes on the indices.

use vstd::prelude::*;
use crate::index::Claim;
use crate::text::{lower_of, name_precedes, same_ignoring_ascii_case, strip_dot};

verus! {

/// Metadata of one programming language, markup or data format.
pub struct Language {
    /// Canonical name, unique in a dataset.
    pub name: String,
    /// Classification such as `programming`, `markup`, `data` or `prose`.
    pub language_type: String,
    pub color: Option<String>,
    pub aliases: Option<Vec<String>>,
    pub extensions: Option<Vec<String>>,
    pub interpreters: Option<Vec<String>>,
    pub group: Option<String>,
    pub tm_scope: Option<String>,
    pub ace_mode: Option<String>,
    pub codemirror_mode: Option<String>,
    pub codemirror_mime_type: Option<String>,
    /// Numeric identifier, unique in a dataset.
    pub language_id: u32,
}

/// The three ways to look a record up.
pub enum Lookup {
    ByName,
    ByExtension,
    ByMode,
}

/// The aliases of a record; none where the record has no list.
pub open spec fn aliases_of(r: Language) -> Seq<String> {
    match r.aliases {
        Some(v) => v@,
        None => Seq::empty(),
    }
}

/// The extensions of a record; none where the record has no list.
pub open spec fn extensions_of(r: Language) -> Seq<String> {
    match r.extensions {
        Some(v) => v@,
        None => Seq::empty(),
    }
}

/// The key under which an extension is indexed: one leading dot dropped,
/// then lowercased.
pub open spec fn extension_key(e: Seq<char>) -> Seq<char> {
    lower_of(strip_dot(e))
}

/// Key `k` equals, up to ASCII case, the record's name or one of its aliases.
pub open spec fn owns_key(r: Language, k: Seq<char>) -> bool {
    same_ignoring_ascii_case(r.name@, k) || exists|j: int|
        0 <= j < aliases_of(r).len() && same_ignoring_ascii_case(#[trigger] aliases_of(r)[j]@, k)
}

/// The claims of record `r`, at position `i`, on the index of kind `kind`,
/// in the order they are processed.
pub open spec fn claims_of(kind: Lookup, r: Language, i: nat) -> Seq<Claim> {
    match kind {
        Lookup::ByName => seq![Claim { key: lower_of(r.name@), record: i, preferred: false }]
            + aliases_of(r).map_values(
            |a: String| Claim { key: lower_of(a@), record: i, preferred: false },
        ),
        Lookup::ByExtension => extensions_of(r).map_values(
            |e: String|
                Claim {
                    key: extension_key(e@),
                    record: i,
                    preferred: owns_key(r, extension_key(e@)),
                },
        ),
        Lookup::ByMode => match r.codemirror_mode {
            Some(m) => seq![
                Claim {
                    key: lower_of(m@),
                    record: i,
                    preferred: lower_of(r.name@) == lower_of(m@),
                },
            ],
            None => Seq::empty(),
        },
    }
}

/// Every claim of every record, records taken in order.
pub open spec fn all_claims(kind: Lookup, recs: Seq<Language>) -> Seq<Claim>
    decreases recs.len(),
{
    if recs.len() == 0 {
        Seq::empty()
    } else {
        all_claims(kind, recs.drop_last()) + claims_of(kind, recs.last(), (recs.len() - 1) as nat)
    }
}

pub proof fn lemma_all_claims_step(kind: Lookup, recs: Seq<Language>, i: int)
    requires
        0 <= i < recs.len(),
    ensures
        all_claims(kind, recs.take(i + 1)) == all_claims(kind, recs.take(i)) + claims_of(
            kind,
            recs[i],
            i as nat,
        ),
{
    assert(recs.take(i + 1).drop_last() == recs.take(i));
}

/// No two records share a name.
pub open spec fn names_distinct(recs: Seq<Language>) -> bool {
    forall|i: int, j: int|
        0 <= i < j < recs.len() ==> #[trigger] recs[i].name@ != #[trigger] recs[j].name@
}

/// Each name sorts strictly before the next one in ordinal order.
pub open spec fn names_sorted(recs: Seq<Language>) -> bool {
    forall|i: int|
        0 <= i < recs.len() - 1 ==> name_precedes(#[trigger] recs[i].name@, recs[i + 1].name@)
}

/// No two records share a language id.
pub open spec fn ids_distinct(recs: Seq<Language>) -> bool {
    forall|i: int, j: int|
        0 <= i < j < recs.len() ==> #[trigger] recs[i].language_id != #[trigger] recs[j].language_id
}

} // verus!
