//! The jar as mathematics: three sequences and the operations on them.

use vstd::prelude::*;
use crate::record::{AttributesModel, RecordModel};

verus! {

/// Whether `records` holds a cookie called `name`.
pub open spec fn has_name(records: Seq<RecordModel>, name: Seq<char>) -> bool {
    exists|i: int| 0 <= i < records.len() && (#[trigger] records[i]).name == name
}

/// Where in `records` the cookie called `name` stands, if `has_name` holds.
pub open spec fn index_of_name(records: Seq<RecordModel>, name: Seq<char>) -> int {
    choose|i: int| 0 <= i < records.len() && (#[trigger] records[i]).name == name
}

/// The cookie called `name`, if `records` holds one.
pub open spec fn lookup(records: Seq<RecordModel>, name: Seq<char>) -> Option<RecordModel> {
    if has_name(records, name) {
        Some(records[index_of_name(records, name)])
    } else {
        None
    }
}

/// No two records share a name.
pub open spec fn unique_names(records: Seq<RecordModel>) -> bool {
    forall|i: int, j: int|
        0 <= i < j < records.len() ==> (#[trigger] records[i]).name != (#[trigger] records[j]).name
}

/// Every record has a name of at least one character.
pub open spec fn named(records: Seq<RecordModel>) -> bool {
    forall|i: int| 0 <= i < records.len() ==> (#[trigger] records[i]).name.len() > 0
}

/// `records` with `record` in the place of the cookie of the same name, or at
/// the end where there was none.
pub open spec fn upsert(records: Seq<RecordModel>, record: RecordModel) -> Seq<RecordModel> {
    if has_name(records, record.name) {
        records.update(index_of_name(records, record.name), record)
    } else {
        records.push(record)
    }
}

/// `records` without the cookie called `name`.
pub open spec fn without(records: Seq<RecordModel>, name: Seq<char>) -> Seq<RecordModel> {
    if has_name(records, name) {
        records.remove(index_of_name(records, name))
    } else {
        records
    }
}

/// `names` without `name`.
pub open spec fn drop_name(names: Seq<Seq<char>>, name: Seq<char>) -> Seq<Seq<char>> {
    if names.contains(name) {
        names.remove(names.index_of(name))
    } else {
        names
    }
}

/// Whether `record` has to be reported: the request did not bring a cookie of
/// that name, or brought one that differs in value or in any attribute.
pub open spec fn is_changed(original: Seq<RecordModel>, record: RecordModel) -> bool {
    lookup(original, record.name) != Some(record)
}

/// The records of `working` that have to be reported, in the order of `working`.
pub open spec fn changed_records(
    original: Seq<RecordModel>,
    working: Seq<RecordModel>,
) -> Seq<RecordModel>
    decreases working.len(),
{
    if working.len() == 0 {
        Seq::empty()
    } else {
        let earlier = changed_records(original, working.drop_last());
        if is_changed(original, working.last()) {
            earlier.push(working.last())
        } else {
            earlier
        }
    }
}

/// One clearing cookie for each name, in the order of `names`.
pub open spec fn tombstones(names: Seq<Seq<char>>) -> Seq<RecordModel> {
    Seq::new(names.len(), |i: int| RecordModel::tombstone(names[i]))
}

/// The records that a request's name and value pairs amount to: of two pairs
/// with one name the first counts, and a pair without a name does not count.
pub open spec fn inbound_records(pairs: Seq<(Seq<char>, Seq<char>)>) -> Seq<RecordModel>
    decreases pairs.len(),
{
    if pairs.len() == 0 {
        Seq::empty()
    } else {
        let earlier = inbound_records(pairs.drop_last());
        let pair = pairs.last();
        if pair.0.len() == 0 || has_name(earlier, pair.0) {
            earlier
        } else {
            earlier.push(RecordModel::inbound(pair.0, pair.1))
        }
    }
}

/// Mathematical value of a cookie jar.
pub struct JarModel {
    /// What the request brought. Never changes.
    pub original: Seq<RecordModel>,
    /// What the jar holds now, in the order in which names first came in.
    pub working: Seq<RecordModel>,
    /// The names taken out of `working`, in the order of their removal.
    pub removed: Seq<Seq<char>>,
}

impl JarModel {
    /// What holds of every jar: names are unique and not empty, a removed name
    /// is not in `working`, and every name of `original` is either still in
    /// `working` or among the removed.
    pub open spec fn wf(self) -> bool {
        &&& unique_names(self.original)
        &&& unique_names(self.working)
        &&& self.removed.no_duplicates()
        &&& named(self.original)
        &&& named(self.working)
        &&& forall|i: int| 0 <= i < self.removed.len() ==> (#[trigger] self.removed[i]).len() > 0
        &&& forall|i: int|
            0 <= i < self.removed.len() ==> !has_name(self.working, #[trigger] self.removed[i])
        &&& forall|i: int|
            0 <= i < self.original.len() ==> has_name(self.working, (#[trigger] self.original[i]).name)
                || self.removed.contains(self.original[i].name)
    }

    /// The jar of a request without cookies.
    pub open spec fn empty() -> JarModel {
        JarModel { original: Seq::empty(), working: Seq::empty(), removed: Seq::empty() }
    }

    /// The jar of a request that brought `pairs`.
    pub open spec fn from_pairs(pairs: Seq<(Seq<char>, Seq<char>)>) -> JarModel {
        JarModel {
            original: inbound_records(pairs),
            working: inbound_records(pairs),
            removed: Seq::empty(),
        }
    }

    /// The value of the cookie called `name`, if the jar holds one.
    pub open spec fn get(self, name: Seq<char>) -> Option<Seq<char>> {
        match lookup(self.working, name) {
            Some(record) => Some(record.value),
            None => None,
        }
    }

    /// The jar after `set(name, value, attributes)`. An empty name changes nothing.
    pub open spec fn set(self, name: Seq<char>, value: Seq<char>, attributes: AttributesModel) -> JarModel {
        if name.len() == 0 {
            self
        } else {
            JarModel {
                original: self.original,
                working: upsert(self.working, RecordModel::new(name, value, attributes)),
                removed: drop_name(self.removed, name),
            }
        }
    }

    /// The jar after `remove(name)`. A name that the jar does not hold changes nothing.
    pub open spec fn remove(self, name: Seq<char>) -> JarModel {
        if has_name(self.working, name) {
            JarModel {
                original: self.original,
                working: without(self.working, name),
                removed: self.removed.push(name),
            }
        } else {
            self
        }
    }

    /// What the response has to tell the client: first the new and the changed
    /// cookies, then one clearing cookie for each removed name.
    pub open spec fn delta(self) -> Seq<RecordModel> {
        changed_records(self.original, self.working) + tombstones(self.removed)
    }
}

/// In a sequence of unique names a record is found at its own place.
pub proof fn lemma_found_at(records: Seq<RecordModel>, i: int)
    requires
        unique_names(records),
        0 <= i < records.len(),
    ensures
        has_name(records, records[i].name),
        index_of_name(records, records[i].name) == i,
        lookup(records, records[i].name) == Some(records[i]),
{
    let name = records[i].name;
    let j = index_of_name(records, name);
    assert(0 <= j < records.len() && records[j].name == name);
}

/// What `upsert` does to names, to uniqueness and to lookups.
pub proof fn lemma_upsert(records: Seq<RecordModel>, record: RecordModel)
    requires
        unique_names(records),
    ensures
        unique_names(upsert(records, record)),
        lookup(upsert(records, record), record.name) == Some(record),
        forall|name: Seq<char>|
            has_name(upsert(records, record), name) <==> (name == record.name || has_name(
                records,
                name,
            )),
        forall|name: Seq<char>|
            name != record.name ==> lookup(upsert(records, record), name) == lookup(records, name),
        named(records) && record.name.len() > 0 ==> named(upsert(records, record)),
{
    let after = upsert(records, record);
    let at = if has_name(records, record.name) {
        index_of_name(records, record.name)
    } else {
        records.len() as int
    };
    assert(0 <= at < after.len() && after[at] == record);
    assert forall|k: int| 0 <= k < after.len() && k != at implies after[k] == records[k] && (
    #[trigger] after[k]).name != record.name by {
        if has_name(records, record.name) {
            assert(records[at].name == record.name);
        }
    }
    assert(unique_names(after));
    lemma_found_at(after, at);
    assert forall|name: Seq<char>|
        has_name(after, name) <==> (name == record.name || has_name(records, name)) by {
        if has_name(after, name) {
            let k = index_of_name(after, name);
            if k != at {
                assert(records[k].name == name);
            }
        }
        if has_name(records, name) && name != record.name {
            let k = index_of_name(records, name);
            assert(after[k].name == name);
        }
    }
    assert forall|name: Seq<char>| name != record.name implies lookup(after, name) == lookup(
        records,
        name,
    ) by {
        if has_name(records, name) {
            let k = index_of_name(records, name);
            assert(after[k] == records[k]);
            lemma_found_at(after, k);
        }
    }
}

/// What `without` does to names, to uniqueness and to lookups.
pub proof fn lemma_without(records: Seq<RecordModel>, gone: Seq<char>)
    requires
        unique_names(records),
    ensures
        unique_names(without(records, gone)),
        !has_name(without(records, gone), gone),
        forall|name: Seq<char>|
            has_name(without(records, gone), name) <==> (name != gone && has_name(records, name)),
        forall|name: Seq<char>|
            name != gone ==> lookup(without(records, gone), name) == lookup(records, name),
        named(records) ==> named(without(records, gone)),
{
    let after = without(records, gone);
    if has_name(records, gone) {
        let at = index_of_name(records, gone);
        assert forall|k: int| 0 <= k < after.len() implies #[trigger] after[k] == records[if k
            < at {
            k
        } else {
            k + 1
        }] by {}
        assert(unique_names(after));
        assert forall|name: Seq<char>|
            has_name(after, name) <==> (name != gone && has_name(records, name)) by {
            if has_name(after, name) {
                let k = index_of_name(after, name);
                let k0 = if k < at { k } else { k + 1 };
                assert(records[k0].name == name);
                assert(records[at].name == gone);
            }
            if name != gone && has_name(records, name) {
                let k0 = index_of_name(records, name);
                let k = if k0 < at { k0 } else { k0 - 1 };
                assert(after[k] == records[k0]);
            }
        }
        assert forall|name: Seq<char>| name != gone implies lookup(after, name) == lookup(
            records,
            name,
        ) by {
            if has_name(records, name) {
                let k0 = index_of_name(records, name);
                let k = if k0 < at { k0 } else { k0 - 1 };
                assert(after[k] == records[k0]);
                lemma_found_at(after, k);
            }
        }
    }
}

/// What `drop_name` does to a list of names without repetition.
pub proof fn lemma_drop_name(names: Seq<Seq<char>>, gone: Seq<char>)
    requires
        names.no_duplicates(),
    ensures
        drop_name(names, gone).no_duplicates(),
        forall|name: Seq<char>|
            drop_name(names, gone).contains(name) <==> (name != gone && names.contains(name)),
        forall|i: int|
            0 <= i < drop_name(names, gone).len() ==> names.contains(
                #[trigger] drop_name(names, gone)[i],
            ),
{
    let after = drop_name(names, gone);
    if names.contains(gone) {
        let at = names.index_of(gone);
        assert(0 <= at < names.len() && names[at] == gone);
        assert forall|k: int| 0 <= k < after.len() implies #[trigger] after[k] == names[if k < at {
            k
        } else {
            k + 1
        }] by {}
        assert forall|name: Seq<char>|
            after.contains(name) <==> (name != gone && names.contains(name)) by {
            if after.contains(name) {
                let k = after.index_of(name);
                assert(after[k] == name);
                let k0 = if k < at { k } else { k + 1 };
                assert(names[k0] == name);
            }
            if name != gone && names.contains(name) {
                let k0 = names.index_of(name);
                assert(names[k0] == name);
                let k = if k0 < at { k0 } else { k0 - 1 };
                assert(after[k] == name);
            }
        }
    }
}

/// Every reported record is a record of `working`.
pub proof fn lemma_changed_records_within(original: Seq<RecordModel>, working: Seq<RecordModel>)
    ensures
        forall|i: int|
            0 <= i < changed_records(original, working).len() ==> working.contains(
                #[trigger] changed_records(original, working)[i],
            ),
    decreases working.len(),
{
    if working.len() > 0 {
        let shorter = working.drop_last();
        lemma_changed_records_within(original, shorter);
        let earlier = changed_records(original, shorter);
        assert forall|i: int| 0 <= i < changed_records(original, working).len() implies
            working.contains(#[trigger] changed_records(original, working)[i]) by {
            if i < earlier.len() {
                let k = shorter.index_of(earlier[i]);
                assert(shorter.contains(earlier[i]));
                assert(shorter[k] == earlier[i]);
                assert(working[k] == earlier[i]);
            } else {
                assert(working[working.len() - 1] == working.last());
            }
        }
    }
}

/// The records of a request are well named: no name twice, none empty.
pub proof fn lemma_inbound_records(pairs: Seq<(Seq<char>, Seq<char>)>)
    ensures
        unique_names(inbound_records(pairs)),
        named(inbound_records(pairs)),
    decreases pairs.len(),
{
    if pairs.len() > 0 {
        lemma_inbound_records(pairs.drop_last());
        let earlier = inbound_records(pairs.drop_last());
        let now = inbound_records(pairs);
        if now != earlier {
            assert forall|i: int, j: int| 0 <= i < j < now.len() implies (#[trigger] now[i]).name != (
            #[trigger] now[j]).name by {
                if j == earlier.len() {
                    assert(earlier[i].name != pairs.last().0);
                }
            }
        }
    }
}

/// A jar made from a request is well formed.
pub proof fn lemma_from_pairs_wf(pairs: Seq<(Seq<char>, Seq<char>)>)
    ensures
        JarModel::from_pairs(pairs).wf(),
{
    lemma_inbound_records(pairs);
}

/// `set` keeps a jar well formed.
pub proof fn lemma_set_wf(jar: JarModel, name: Seq<char>, value: Seq<char>, attributes: AttributesModel)
    requires
        jar.wf(),
    ensures
        jar.set(name, value, attributes).wf(),
{
    if name.len() > 0 {
        let record = RecordModel::new(name, value, attributes);
        let after = jar.set(name, value, attributes);
        lemma_upsert(jar.working, record);
        lemma_drop_name(jar.removed, name);
        assert forall|i: int| 0 <= i < after.removed.len() implies !has_name(
            after.working,
            #[trigger] after.removed[i],
        ) && after.removed[i].len() > 0 by {
            let n = after.removed[i];
            assert(after.removed.contains(n));
            assert(jar.removed.contains(n));
            let k = jar.removed.index_of(n);
            assert(jar.removed[k] == n);
        }
        assert forall|i: int| 0 <= i < after.original.len() implies has_name(
            after.working,
            (#[trigger] after.original[i]).name,
        ) || after.removed.contains(after.original[i].name) by {
            let n = jar.original[i].name;
            if n != name {
                if !has_name(jar.working, n) {
                    assert(jar.removed.contains(n));
                }
            }
        }
    }
}

/// `remove` keeps a jar well formed.
pub proof fn lemma_remove_wf(jar: JarModel, name: Seq<char>)
    requires
        jar.wf(),
    ensures
        jar.remove(name).wf(),
{
    if has_name(jar.working, name) {
        let after = jar.remove(name);
        lemma_without(jar.working, name);
        let at = index_of_name(jar.working, name);
        assert(jar.working[at].name == name);
        assert(!jar.removed.contains(name)) by {
            if jar.removed.contains(name) {
                let k = jar.removed.index_of(name);
                assert(jar.removed[k] == name);
            }
        }
        assert(after.removed.no_duplicates());
        assert forall|i: int| 0 <= i < after.removed.len() implies !has_name(
            after.working,
            #[trigger] after.removed[i],
        ) && after.removed[i].len() > 0 by {
            if i < jar.removed.len() {
                assert(after.removed[i] == jar.removed[i]);
            }
        }
        assert forall|i: int| 0 <= i < after.original.len() implies has_name(
            after.working,
            (#[trigger] after.original[i]).name,
        ) || after.removed.contains(after.original[i].name) by {
            let n = jar.original[i].name;
            if n == name {
                assert(after.removed[jar.removed.len() as int] == name);
            } else if !has_name(jar.working, n) {
                let k = jar.removed.index_of(n);
                assert(jar.removed.contains(n));
                assert(jar.removed[k] == n);
                assert(after.removed[k] == n);
            }
        }
    }
}

} // verus!
