//! A dataset of records with its three indices, and the lookups over them.

use vstd::prelude::*;
use crate::builder::{build_extension_index, build_mode_index, build_name_index};
use crate::index::{winner, Index};
use crate::language::{all_claims, ids_distinct, names_distinct, names_sorted, Language, Lookup};
use crate::text::{lower_of, lowercase, name_precedes, precedes};

verus! {

/// Why a dataset cannot be indexed.
#[derive(Debug, PartialEq, Eq, Structural)]
pub enum DatasetError {
    /// Two records have the same canonical name.
    DuplicateName,
    /// The records are not in ascending order of canonical name.
    NamesOutOfOrder,
    /// Two records have the same language id.
    DuplicateLanguageId,
}

/// The record that key `k` leads to in the index of kind `kind` over `recs`.
pub open spec fn lookup(kind: Lookup, recs: Seq<Language>, k: Seq<char>) -> Option<Language> {
    match winner(all_claims(kind, recs), k) {
        Some(i) => Some(recs[i as int]),
        None => None,
    }
}

/// What a lookup returned, by reference, is what `lookup` gives.
pub open spec fn answers(r: Option<&Language>, expected: Option<Language>) -> bool {
    match r {
        Some(l) => expected == Some(*l),
        None => expected is None,
    }
}

/// A dataset, in processing order, with its indices by name and alias, by
/// extension and by editor mode.
pub struct Languages {
    records: Vec<Language>,
    by_name: Index,
    by_extension: Index,
    by_mode: Index,
}

impl View for Languages {
    type V = Seq<Language>;

    closed spec fn view(&self) -> Seq<Language> {
        self.records@
    }
}

impl Languages {
    /// Each index answers for the claims of the records.
    pub closed spec fn wf(&self) -> bool {
        let n = self.records@.len();
        &&& self.by_name.models(all_claims(Lookup::ByName, self.records@), n)
        &&& self.by_extension.models(all_claims(Lookup::ByExtension, self.records@), n)
        &&& self.by_mode.models(all_claims(Lookup::ByMode, self.records@), n)
        &&& names_distinct(self.records@)
        &&& names_sorted(self.records@)
        &&& ids_distinct(self.records@)
    }

    /// A built dataset has distinct names, in ascending order, and distinct
    /// language ids.
    pub proof fn lemma_unique(&self)
        requires
            self.wf(),
        ensures
            names_distinct(self@),
            names_sorted(self@),
            ids_distinct(self@),
    {
    }

    /// Builds the indices over `records`, which come in ascending order of
    /// canonical name and are processed in that order.
    pub fn new(records: Vec<Language>) -> (r: Result<Languages, DatasetError>)
        ensures
            r is Ok <==> names_distinct(records@) && names_sorted(records@) && ids_distinct(
                records@,
            ),
            r matches Ok(l) ==> l.wf() && l@ == records@,
            r == Err::<Languages, DatasetError>(DatasetError::DuplicateName) <==> !names_distinct(
                records@,
            ),
            r == Err::<Languages, DatasetError>(DatasetError::NamesOutOfOrder) <==> names_distinct(
                records@,
            ) && !names_sorted(records@),
    {
        let (names_ok, ids_ok) = check_distinct(&records);
        if !names_ok {
            return Err(DatasetError::DuplicateName);
        }
        if !in_name_order(&records) {
            return Err(DatasetError::NamesOutOfOrder);
        }
        if !ids_ok {
            return Err(DatasetError::DuplicateLanguageId);
        }
        let by_name = build_name_index(&records);
        let by_extension = build_extension_index(&records);
        let by_mode = build_mode_index(&records);
        Ok(Languages { records, by_name, by_extension, by_mode })
    }

    /// The records, in processing order.
    pub fn records(&self) -> (r: &Vec<Language>)
        ensures
            r@ == self@,
    {
        &self.records
    }

    /// The record that an already normalised key leads to in the index of
    /// kind `kind`.
    pub fn find(&self, kind: Lookup, key: &String) -> (r: Option<&Language>)
        requires
            self.wf(),
        ensures
            answers(r, lookup(kind, self@, key@)),
    {
        let found = match kind {
            Lookup::ByName => self.by_name.get(
                key,
                Ghost(all_claims(Lookup::ByName, self.records@)),
                Ghost(self.records@.len()),
            ),
            Lookup::ByExtension => self.by_extension.get(
                key,
                Ghost(all_claims(Lookup::ByExtension, self.records@)),
                Ghost(self.records@.len()),
            ),
            Lookup::ByMode => self.by_mode.get(
                key,
                Ghost(all_claims(Lookup::ByMode, self.records@)),
                Ghost(self.records@.len()),
            ),
        };
        match found {
            Some(i) => Some(&self.records[i]),
            None => None,
        }
    }
}

/// Whether each name sorts strictly before the next one.
fn in_name_order(records: &Vec<Language>) -> (r: bool)
    ensures
        r == names_sorted(records@),
{
    let mut i: usize = 1;
    while i < records.len()
        invariant
            1 <= i,
            i <= records@.len() || records@.len() == 0,
            forall|j: int| 0 <= j < i - 1 && j < records@.len() - 1 ==> name_precedes(
                #[trigger] records@[j].name@,
                records@[j + 1].name@,
            ),
        decreases records@.len() - i,
    {
        if !precedes(records[i - 1].name.as_str(), records[i].name.as_str()) {
            return false;
        }
        i = i + 1;
    }
    true
}

/// Whether the names are distinct, and whether the language ids are.
fn check_distinct(records: &Vec<Language>) -> (r: (bool, bool))
    ensures
        r.0 == names_distinct(records@),
        r.1 == ids_distinct(records@),
{
    let n = records.len();
    let mut names_ok = true;
    let mut ids_ok = true;
    let mut i: usize = 0;
    while i < n
        invariant
            n == records@.len(),
            i <= n,
            names_ok <==> forall|a: int, b: int|
                0 <= a < b < n && a < i ==> #[trigger] records@[a].name@
                    != #[trigger] records@[b].name@,
            ids_ok <==> forall|a: int, b: int|
                0 <= a < b < n && a < i ==> #[trigger] records@[a].language_id
                    != #[trigger] records@[b].language_id,
        decreases n - i,
    {
        let mut j: usize = i + 1;
        while j < n
            invariant
                n == records@.len(),
                i < n,
                i < j <= n,
                names_ok <==> (forall|a: int, b: int|
                    0 <= a < b < n && a < i ==> #[trigger] records@[a].name@
                        != #[trigger] records@[b].name@) && (forall|b: int|
                    i < b < j ==> records@[i as int].name@ != #[trigger] records@[b].name@),
                ids_ok <==> (forall|a: int, b: int|
                    0 <= a < b < n && a < i ==> #[trigger] records@[a].language_id
                        != #[trigger] records@[b].language_id) && (forall|b: int|
                    i < b < j ==> records@[i as int].language_id
                        != #[trigger] records@[b].language_id),
            decreases n - j,
        {
            if records[i].name == records[j].name {
                names_ok = false;
            }
            if records[i].language_id == records[j].language_id {
                ids_ok = false;
            }
            j = j + 1;
        }
        i = i + 1;
    }
    (names_ok, ids_ok)
}

/// The record whose canonical name or alias equals `name` once both are
/// lowercased.
pub fn from_name<'a>(languages: &'a Languages, name: &str) -> (r: Option<&'a Language>)
    requires
        languages.wf(),
    ensures
        answers(r, lookup(Lookup::ByName, languages@, lower_of(name@))),
{
    languages.find(Lookup::ByName, &lowercase(name))
}

/// The record that declares `extension`, given without its leading dot;
/// the comparison ignores case.
pub fn from_extension<'a>(languages: &'a Languages, extension: &str) -> (r: Option<&'a Language>)
    requires
        languages.wf(),
    ensures
        answers(r, lookup(Lookup::ByExtension, languages@, lower_of(extension@))),
{
    languages.find(Lookup::ByExtension, &lowercase(extension))
}

/// The record whose editor mode equals `mode`; the comparison ignores case.
pub fn from_codemirror_mode<'a>(languages: &'a Languages, mode: &str) -> (r: Option<&'a Language>)
    requires
        languages.wf(),
    ensures
        answers(r, lookup(Lookup::ByMode, languages@, lower_of(mode@))),
{
    languages.find(Lookup::ByMode, &lowercase(mode))
}

} // verus!
