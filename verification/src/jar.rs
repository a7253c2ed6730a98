//! The jar of one request: what came in, what is there now, what was taken out.

use vstd::prelude::*;
use crate::model::{
    changed_records, drop_name, has_name, inbound_records, is_changed, lemma_found_at,
    lemma_from_pairs_wf, lemma_remove_wf, lemma_set_wf, tombstones, upsert, without, JarModel,
};
use crate::record::{CookieAttributes, CookieRecord, RecordModel};

verus! {

/// The cookies of one request. There is one jar for each request; handlers
/// share it by reference, so it cannot be cloned.
pub struct CookieJar {
    original: Vec<CookieRecord>,
    working: Vec<CookieRecord>,
    removed: Vec<String>,
}

impl View for CookieJar {
    type V = JarModel;

    closed spec fn view(&self) -> JarModel {
        JarModel {
            original: self.original.deep_view(),
            working: self.working.deep_view(),
            removed: self.removed.deep_view(),
        }
    }
}

/// The place of the record called `name`, looking from the front.
fn find_record(records: &Vec<CookieRecord>, name: &String) -> (found: Option<usize>)
    ensures
        match found {
            Some(i) => i < records.len() && records.deep_view()[i as int].name == name@,
            None => !has_name(records.deep_view(), name@),
        },
{
    let mut i: usize = 0;
    while i < records.len()
        invariant
            i <= records.len(),
            forall|k: int| 0 <= k < i ==> (#[trigger] records.deep_view()[k]).name != name@,
        decreases records.len() - i,
    {
        if records[i].name == *name {
            return Some(i);
        }
        i += 1;
    }
    None
}

/// The place of `name` in `names`, looking from the front.
fn find_name(names: &Vec<String>, name: &String) -> (found: Option<usize>)
    ensures
        match found {
            Some(i) => i < names.len() && names.deep_view()[i as int] == name@,
            None => !names.deep_view().contains(name@),
        },
{
    let mut i: usize = 0;
    while i < names.len()
        invariant
            i <= names.len(),
            forall|k: int| 0 <= k < i ==> #[trigger] names.deep_view()[k] != name@,
        decreases names.len() - i,
    {
        if names[i] == *name {
            return Some(i);
        }
        i += 1;
    }
    None
}

impl CookieJar {
    #[verifier::type_invariant]
    spec fn well_formed(self) -> bool {
        self@.wf()
    }

    /// The jar of a request that brought no cookies.
    pub fn new() -> (jar: Self)
        ensures
            jar@ == JarModel::empty(),
            jar@.wf(),
    {
        let original: Vec<CookieRecord> = Vec::new();
        let working: Vec<CookieRecord> = Vec::new();
        let removed: Vec<String> = Vec::new();
        proof {
            assert(original.deep_view() =~= Seq::empty());
            assert(working.deep_view() =~= Seq::empty());
            assert(removed.deep_view() =~= Seq::empty());
        }
        CookieJar { original, working, removed }
    }

    /// The jar of a request that brought `pairs`, each a name and a value.
    /// Where a name comes twice the first pair counts; a pair with an empty
    /// name is passed over.
    pub fn from_pairs(pairs: Vec<(String, String)>) -> (jar: Self)
        ensures
            jar@ == JarModel::from_pairs(pairs.deep_view()),
            jar@.wf(),
    {
        let ghost model = pairs.deep_view();
        let mut original: Vec<CookieRecord> = Vec::new();
        let mut working: Vec<CookieRecord> = Vec::new();
        let mut i: usize = 0;
        assert(model.take(0) =~= Seq::empty());
        assert(original.deep_view() =~= Seq::empty());
        assert(working.deep_view() =~= Seq::empty());
        while i < pairs.len()
            invariant
                i <= pairs.len(),
                model == pairs.deep_view(),
                original.deep_view() == inbound_records(model.take(i as int)),
                working.deep_view() == original.deep_view(),
            decreases pairs.len() - i,
        {
            let ghost before = original.deep_view();
            proof {
                assert(model.take(i + 1).drop_last() =~= model.take(i as int));
                assert(model.take(i + 1).last() == (pairs[i as int].0@, pairs[i as int].1@));
            }
            let has_text = !pairs[i].0.as_str().is_empty();
            if has_text {
                let known = find_record(&original, &pairs[i].0);
                if known.is_none() {
                    original.push(CookieRecord::inbound(pairs[i].0.clone(), pairs[i].1.clone()));
                    working.push(CookieRecord::inbound(pairs[i].0.clone(), pairs[i].1.clone()));
                    assert(original.deep_view() =~= before.push(
                        RecordModel::inbound(pairs[i as int].0@, pairs[i as int].1@),
                    ));
                    assert(working.deep_view() =~= original.deep_view());
                }
            }
            i += 1;
        }
        let removed: Vec<String> = Vec::new();
        proof {
            assert(model.take(i as int) =~= model);
            assert(removed.deep_view() =~= Seq::empty());
            lemma_from_pairs_wf(model);
        }
        CookieJar { original, working, removed }
    }

    /// The value of the cookie called `name`, if the jar holds one now.
    pub fn get(&self, name: &str) -> (value: Option<String>)
        ensures
            self@.wf(),
            value.deep_view() == self@.get(name@),
    {
        proof {
            use_type_invariant(self);
        }
        let key = name.to_owned();
        match find_record(&self.working, &key) {
            Some(i) => {
                proof {
                    lemma_found_at(self@.working, i as int);
                }
                Some(self.working[i].value.clone())
            },
            None => None,
        }
    }

    /// Whether the jar holds a cookie called `name` now.
    pub fn contains(&self, name: &str) -> (held: bool)
        ensures
            held == has_name(self@.working, name@),
    {
        let key = name.to_owned();
        find_record(&self.working, &key).is_some()
    }

    /// Puts the cookie `name` with `value` and `attributes` into the jar, in
    /// the place of one with the same name if there is one, and forgets that
    /// the name was ever removed. A cookie needs a name: with an empty `name`
    /// nothing happens.
    pub fn set(&mut self, name: String, value: String, attributes: CookieAttributes)
        ensures
            old(self)@.wf(),
            final(self)@ == old(self)@.set(name@, value@, attributes@),
            final(self)@.wf(),
    {
        let ghost before = self@;
        let ghost record_model = RecordModel::new(name@, value@, attributes@);
        proof {
            use_type_invariant(&*self);
            lemma_set_wf(before, name@, value@, attributes@);
        }
        if name.as_str().is_empty() {
            return ;
        }
        let CookieJar { original, mut working, mut removed } = self.take();
        match find_name(&removed, &name) {
            Some(k) => {
                removed.remove(k);
                proof {
                    assert(before.removed.contains(name@));
                    assert(before.removed.index_of(name@) == k);
                    assert(removed.deep_view() =~= before.removed.remove(k as int));
                }
            },
            None => {},
        }
        assert(removed.deep_view() == drop_name(before.removed, name@));
        let found = find_record(&working, &name);
        let record = CookieRecord::new(name, value, attributes);
        match found {
            Some(i) => {
                proof {
                    lemma_found_at(before.working, i as int);
                }
                working.set(i, record);
                assert(working.deep_view() =~= before.working.update(i as int, record_model));
            },
            None => {
                working.push(record);
                assert(working.deep_view() =~= before.working.push(record_model));
            },
        }
        assert(working.deep_view() == upsert(before.working, record_model));
        *self = CookieJar { original, working, removed };
    }

    /// Takes the cookie called `name` out of the jar and notes the name, so
    /// that the client is told to forget it. A name that the jar does not hold
    /// changes nothing.
    pub fn remove(&mut self, name: &str)
        ensures
            old(self)@.wf(),
            final(self)@ == old(self)@.remove(name@),
            final(self)@.wf(),
    {
        let ghost before = self@;
        proof {
            use_type_invariant(&*self);
            lemma_remove_wf(before, name@);
        }
        let key = name.to_owned();
        match find_record(&self.working, &key) {
            Some(i) => {
                proof {
                    lemma_found_at(before.working, i as int);
                }
                let CookieJar { original, mut working, mut removed } = self.take();
                working.remove(i);
                removed.push(key);
                assert(working.deep_view() =~= without(before.working, name@));
                assert(removed.deep_view() =~= before.removed.push(name@));
                *self = CookieJar { original, working, removed };
            },
            None => {},
        }
    }

    /// Hands out what the jar holds and leaves an empty jar in its place.
    fn take(&mut self) -> (held: Self)
        ensures
            held@ == old(self)@,
            final(self)@ == JarModel::empty(),
    {
        let mut held = CookieJar::new();
        core::mem::swap(self, &mut held);
        held
    }

    /// What the response has to tell the client, the same on every call until
    /// the jar changes: the cookies that are new or differ from what the
    /// request brought, in the order in which their names came in, then one
    /// clearing cookie for each removed name, in the order of removal.
    pub fn delta(&self) -> (entries: Vec<CookieRecord>)
        ensures
            self@.wf(),
            entries.deep_view() == self@.delta(),
    {
        proof {
            use_type_invariant(self);
        }
        let mut entries: Vec<CookieRecord> = Vec::new();
        let ghost original = self@.original;
        let ghost working = self@.working;
        let ghost removed = self@.removed;
        let mut i: usize = 0;
        assert(working.take(0) =~= Seq::empty());
        assert(entries.deep_view() =~= Seq::empty());
        while i < self.working.len()
            invariant
                i <= self.working.len(),
                self@.wf(),
                original == self@.original,
                working == self@.working,
                entries.deep_view() == changed_records(original, working.take(i as int)),
            decreases self.working.len() - i,
        {
            let ghost before = entries.deep_view();
            let record = &self.working[i];
            proof {
                assert(working.take(i + 1).drop_last() =~= working.take(i as int));
                assert(working.take(i + 1).last() == record@);
            }
            let unchanged = match find_record(&self.original, &record.name) {
                Some(k) => {
                    proof {
                        lemma_found_at(original, k as int);
                    }
                    self.original[k].same_as(record)
                },
                None => false,
            };
            assert(unchanged == !is_changed(original, record@));
            if !unchanged {
                entries.push(record.clone());
                assert(entries.deep_view() =~= before.push(record@));
            }
            i += 1;
        }
        assert(working.take(i as int) =~= working);
        let ghost changed = entries.deep_view();
        let mut k: usize = 0;
        assert(entries.deep_view() =~= changed + tombstones(removed.take(0)));
        while k < self.removed.len()
            invariant
                k <= self.removed.len(),
                removed == self@.removed,
                entries.deep_view() == changed + tombstones(removed.take(k as int)),
            decreases self.removed.len() - k,
        {
            let ghost before = entries.deep_view();
            entries.push(CookieRecord::tombstone(self.removed[k].clone()));
            assert(entries.deep_view() =~= before.push(RecordModel::tombstone(removed[k as int])));
            assert(entries.deep_view() =~= changed + tombstones(removed.take(k + 1)));
            k += 1;
        }
        assert(removed.take(k as int) =~= removed);
        entries
    }
}

} // verus!
