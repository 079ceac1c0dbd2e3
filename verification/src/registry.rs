//! The records that named references resolve to.

use vstd::prelude::*;
use crate::text::same_text;
use crate::types::{RecordModel, SolStruct};

verus! {

/// The models of a list of records.
pub open spec fn models(records: Seq<SolStruct>) -> Seq<RecordModel> {
    records.map_values(|r: SolStruct| r@)
}

/// The map that holds each of `records` under its name. Where two records share a
/// name, the later one stands.
pub open spec fn registered(records: Seq<RecordModel>) -> Map<Seq<char>, RecordModel>
    decreases records.len(),
{
    if records.len() == 0 {
        Map::empty()
    } else {
        registered(records.drop_last()).insert(records.last().name, records.last())
    }
}

/// A name that is in the map of `records` belongs to one of them; the last record
/// of that name is the one the map holds.
pub proof fn lemma_registered_last(records: Seq<RecordModel>, name: Seq<char>, i: int)
    requires
        0 <= i < records.len(),
        records[i].name == name,
        forall|j: int| i < j < records.len() ==> records[j].name != name,
    ensures
        registered(records).contains_key(name),
        registered(records)[name] == records[i],
    decreases records.len(),
{
    if i < records.len() - 1 {
        lemma_registered_last(records.drop_last(), name, i);
    }
}

/// A name that none of `records` has is not in their map.
pub proof fn lemma_registered_absent(records: Seq<RecordModel>, name: Seq<char>)
    requires
        forall|j: int| 0 <= j < records.len() ==> records[j].name != name,
    ensures
        !registered(records).contains_key(name),
    decreases records.len(),
{
    if records.len() > 0 {
        lemma_registered_absent(records.drop_last(), name);
    }
}

/// A set of records, found by name. It is built once from all the records and
/// only read afterwards.
pub struct Registry {
    records: Vec<SolStruct>,
}

impl View for Registry {
    type V = Map<Seq<char>, RecordModel>;

    closed spec fn view(&self) -> Map<Seq<char>, RecordModel> {
        registered(models(self.records@))
    }
}

impl Registry {
    /// Every record in a registry is well formed.
    #[verifier::type_invariant]
    spec fn holds_well_formed_records(self) -> bool {
        forall|i: int| 0 <= i < self.records@.len() ==> (#[trigger] self.records@[i])@.wf()
    }

    /// Builds the registry of `records`.
    pub fn new(records: Vec<SolStruct>) -> (r: Registry)
        requires
            forall|i: int| 0 <= i < records@.len() ==> (#[trigger] records@[i])@.wf(),
        ensures
            r@ == registered(models(records@)),
    {
        Registry { records }
    }

    /// The record registered under `name`, if there is one.
    pub fn get(&self, name: &str) -> (r: Option<&SolStruct>)
        ensures
            match r {
                Some(record) => self@.contains_key(name@) && record@ == self@[name@] && record@.wf(),
                None => !self@.contains_key(name@),
            },
    {
        proof {
            use_type_invariant(self);
        }
        let ghost all = models(self.records@);
        let mut i: usize = self.records.len();
        while i > 0
            invariant
                i <= self.records.len(),
                all == models(self.records@),
                forall|k: int|
                    0 <= k < self.records@.len() ==> (#[trigger] self.records@[k])@.wf(),
                forall|j: int| i <= j < all.len() ==> all[j].name != name@,
            decreases i,
        {
            i = i - 1;
            if same_text(self.records[i].name.as_str(), name) {
                proof {
                    lemma_registered_last(all, name@, i as int);
                }
                return Some(&self.records[i]);
            }
        }
        proof {
            lemma_registered_absent(all, name@);
        }
        None
    }
}

} // verus!
