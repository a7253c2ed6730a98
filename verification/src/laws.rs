//! What holds of every jar, proved from the model.

use vstd::prelude::*;
use crate::codec::{
    ends_with_separator, header_jar, holds_separator, joined, kept_pairs, parse_results,
    split_segments,
};
use crate::jar::CookieJar;
use crate::model::{
    changed_records, has_name, is_changed, lemma_changed_records_within, lemma_found_at,
    lemma_from_pairs_wf, lemma_remove_wf, lemma_set_wf, lemma_upsert, lemma_without,
    tombstones, unique_names, without, JarModel,
};
use crate::record::{AttributesModel, CookieRecord, RecordModel};

verus! {

/// One change that a handler makes to the jar.
pub enum JarUpdate {
    SetCookie { name: Seq<char>, value: Seq<char>, attributes: AttributesModel },
    RemoveCookie { name: Seq<char> },
}

impl JarUpdate {
    /// The name that the change is about.
    pub open spec fn name(self) -> Seq<char> {
        match self {
            JarUpdate::SetCookie { name, .. } => name,
            JarUpdate::RemoveCookie { name } => name,
        }
    }

    /// The jar after the change.
    pub open spec fn apply(self, jar: JarModel) -> JarModel {
        match self {
            JarUpdate::SetCookie { name, value, attributes } => jar.set(name, value, attributes),
            JarUpdate::RemoveCookie { name } => jar.remove(name),
        }
    }
}

/// The jar after `updates`, one after the other.
pub open spec fn apply_all(jar: JarModel, updates: Seq<JarUpdate>) -> JarModel
    decreases updates.len(),
{
    if updates.len() == 0 {
        jar
    } else {
        updates.last().apply(apply_all(jar, updates.drop_last()))
    }
}

/// No update of `updates` is about `name`.
pub open spec fn leaves_alone(updates: Seq<JarUpdate>, name: Seq<char>) -> bool {
    forall|i: int| 0 <= i < updates.len() ==> (#[trigger] updates[i]).name() != name
}

/// Exactly one entry of `entries` is called `name`, and it is `entry`.
pub open spec fn holds_once(entries: Seq<RecordModel>, name: Seq<char>, entry: RecordModel) -> bool {
    exists|i: int|
        0 <= i < entries.len() && #[trigger] entries[i] == entry && entry.name == name && forall|
            j: int,
        |
            0 <= j < entries.len() && (#[trigger] entries[j]).name == name ==> j == i
}

/// No entry of `entries` is called `name`.
pub open spec fn holds_none(entries: Seq<RecordModel>, name: Seq<char>) -> bool {
    forall|j: int| 0 <= j < entries.len() ==> (#[trigger] entries[j]).name != name
}

/// The segments of a header, put together again with `"; "` between them,
/// are the header, and `"; "` occurs in none of them.
pub proof fn law_split_is_undone_by_join(text: Seq<char>)
    ensures
        split_segments(text).len() >= 1,
        joined(split_segments(text)) == text,
        forall|k: int|
            0 <= k < split_segments(text).len() ==> !holds_separator(
                #[trigger] split_segments(text)[k],
            ),
    decreases text.len(),
{
    let segments = split_segments(text);
    let n = text.len() as int;
    if n == 0 {
        assert(segments =~= seq![Seq::<char>::empty()]);
        assert(joined(segments) =~= text);
    } else if ends_with_separator(text) {
        let shorter = text.take(n - 2);
        law_split_is_undone_by_join(shorter);
        let earlier = split_segments(shorter);
        assert(segments.drop_last() =~= earlier);
        assert(joined(segments) =~= text);
        assert forall|k: int| 0 <= k < segments.len() implies !holds_separator(
            #[trigger] segments[k],
        ) by {
            if k < earlier.len() {
                assert(segments[k] == earlier[k]);
            }
        }
    } else {
        let shorter = text.drop_last();
        law_split_is_undone_by_join(shorter);
        let earlier = split_segments(shorter);
        let tail = earlier.last().push(text.last());
        assert(segments =~= earlier.drop_last().push(tail));
        if earlier.len() == 1 {
            assert(earlier.last() == shorter);
            assert(tail =~= text);
        } else {
            let front = joined(earlier.drop_last()) + seq![';', ' '];
            assert(segments.drop_last() =~= earlier.drop_last());
            assert(segments.last() == tail);
            assert(shorter == front + earlier.last());
            assert(joined(segments) == front + tail);
            assert(text =~= shorter.push(text.last()));
            assert((front + earlier.last()).push(text.last()) =~= front + tail);
        }
        assert(earlier.last().len() > 0 ==> earlier.last().last() == shorter.last());
        assert forall|k: int| 0 <= k < segments.len() implies !holds_separator(
            #[trigger] segments[k],
        ) by {
            if k < earlier.len() - 1 {
                assert(segments[k] == earlier[k]);
            } else {
                assert(!holds_separator(earlier[earlier.len() - 1]));
                if holds_separator(tail) {
                    let i = choose|i: int|
                        0 <= i && i + 1 < tail.len() && #[trigger] tail[i] == ';' && tail[i + 1]
                            == ' ';
                    if i + 1 < earlier.last().len() {
                        assert(earlier.last()[i] == ';' && earlier.last()[i + 1] == ' ');
                    } else {
                        assert(tail[i] == shorter.last());
                        assert(shorter.last() == text[n - 2]);
                    }
                }
            }
        }
    }
}

proof fn lemma_nothing_changed(original: Seq<RecordModel>, k: int)
    requires
        unique_names(original),
        0 <= k <= original.len(),
    ensures
        changed_records(original, original.take(k)) == Seq::<RecordModel>::empty(),
    decreases k,
{
    if k > 0 {
        lemma_nothing_changed(original, k - 1);
        assert(original.take(k).drop_last() =~= original.take(k - 1));
        lemma_found_at(original, k - 1);
        assert(original.take(k).last() == original[k - 1]);
    }
}

/// A jar that no handler has touched reports nothing.
pub proof fn law_untouched_jar_reports_nothing(jar: JarModel)
    requires
        jar.wf(),
        jar.working == jar.original,
        jar.removed.len() == 0,
    ensures
        jar.delta() == Seq::<RecordModel>::empty(),
{
    lemma_nothing_changed(jar.original, jar.original.len() as int);
    assert(jar.original.take(jar.original.len() as int) =~= jar.original);
    assert(jar.delta() =~= Seq::empty());
}

/// Whatever the `Cookie` header, the jar made from it reports nothing until a
/// handler changes it.
pub proof fn law_parsed_jar_reports_nothing(header: Seq<char>)
    ensures
        header_jar(header).wf(),
        header_jar(header).delta() == Seq::<RecordModel>::empty(),
{
    let jar = header_jar(header);
    assert(jar.working == jar.original);
    assert(jar.removed.len() == 0);
    lemma_from_pairs_wf(kept_pairs(parse_results(split_segments(header))));
    law_untouched_jar_reports_nothing(jar);
}

/// After `set(name, value, ..)` the jar answers `get(name)` with `value`.
pub proof fn law_get_after_set(
    jar: JarModel,
    name: Seq<char>,
    value: Seq<char>,
    attributes: AttributesModel,
)
    requires
        jar.wf(),
        name.len() > 0,
    ensures
        jar.set(name, value, attributes).get(name) == Some(value),
{
    lemma_upsert(jar.working, RecordModel::new(name, value, attributes));
}

/// A change about another name leaves the answer to `get(name)` as it was.
pub proof fn law_update_elsewhere_keeps_get(jar: JarModel, update: JarUpdate, name: Seq<char>)
    requires
        jar.wf(),
        update.name() != name,
    ensures
        update.apply(jar).wf(),
        update.apply(jar).get(name) == jar.get(name),
{
    match update {
        JarUpdate::SetCookie { name: other, value, attributes } => {
            lemma_set_wf(jar, other, value, attributes);
            lemma_upsert(jar.working, RecordModel::new(other, value, attributes));
        },
        JarUpdate::RemoveCookie { name: other } => {
            lemma_remove_wf(jar, other);
            lemma_without(jar.working, other);
        },
    }
}

/// After `set(name, value, ..)` the jar answers `get(name)` with `value`,
/// however many sets and removes of other names come in between.
pub proof fn law_get_after_set_and_others(
    jar: JarModel,
    name: Seq<char>,
    value: Seq<char>,
    attributes: AttributesModel,
    others: Seq<JarUpdate>,
)
    requires
        jar.wf(),
        name.len() > 0,
        leaves_alone(others, name),
    ensures
        apply_all(jar.set(name, value, attributes), others).wf(),
        apply_all(jar.set(name, value, attributes), others).get(name) == Some(value),
    decreases others.len(),
{
    if others.len() == 0 {
        lemma_set_wf(jar, name, value, attributes);
        law_get_after_set(jar, name, value, attributes);
    } else {
        let earlier = others.drop_last();
        assert forall|i: int| 0 <= i < earlier.len() implies (#[trigger] earlier[i]).name()
            != name by {
            assert(earlier[i] == others[i]);
        }
        law_get_after_set_and_others(jar, name, value, attributes, earlier);
        law_update_elsewhere_keeps_get(
            apply_all(jar.set(name, value, attributes), earlier),
            others.last(),
            name,
        );
    }
}

/// Of two sets of one name the later one decides: in whichever order two
/// handlers get to the jar, `get` answers with the value of one of them.
pub proof fn law_last_writer_wins(
    jar: JarModel,
    name: Seq<char>,
    first: Seq<char>,
    first_attributes: AttributesModel,
    second: Seq<char>,
    second_attributes: AttributesModel,
)
    requires
        jar.wf(),
        name.len() > 0,
    ensures
        jar.set(name, first, first_attributes).set(name, second, second_attributes).get(name)
            == Some(second),
        jar.set(name, second, second_attributes).set(name, first, first_attributes).get(name)
            == Some(first),
{
    lemma_set_wf(jar, name, first, first_attributes);
    lemma_set_wf(jar, name, second, second_attributes);
    law_get_after_set(jar.set(name, first, first_attributes), name, second, second_attributes);
    law_get_after_set(jar.set(name, second, second_attributes), name, first, first_attributes);
}

proof fn lemma_changed_records_unique(original: Seq<RecordModel>, working: Seq<RecordModel>)
    requires
        unique_names(working),
    ensures
        unique_names(changed_records(original, working)),
    decreases working.len(),
{
    if working.len() > 0 {
        let shorter = working.drop_last();
        lemma_changed_records_unique(original, shorter);
        lemma_changed_records_within(original, shorter);
        let earlier = changed_records(original, shorter);
        let all = changed_records(original, working);
        assert forall|i: int, j: int| 0 <= i < j < all.len() implies (#[trigger] all[i]).name != (
        #[trigger] all[j]).name by {
            if j == earlier.len() {
                assert(shorter.contains(earlier[i]));
                let k = shorter.index_of(earlier[i]);
                assert(shorter[k] == earlier[i]);
                assert(working[k] == earlier[i]);
                assert(working[working.len() - 1] == working.last());
            }
        }
    }
}

/// The delta names no cookie twice.
pub proof fn law_delta_names_once(jar: JarModel)
    requires
        jar.wf(),
    ensures
        unique_names(jar.delta()),
{
    let changed = changed_records(jar.original, jar.working);
    let cleared = tombstones(jar.removed);
    let delta = jar.delta();
    lemma_changed_records_unique(jar.original, jar.working);
    lemma_changed_records_within(jar.original, jar.working);
    assert forall|i: int, j: int| 0 <= i < j < delta.len() implies (#[trigger] delta[i]).name != (
    #[trigger] delta[j]).name by {
        if j < changed.len() {
            assert(delta[i] == changed[i] && delta[j] == changed[j]);
        } else if i >= changed.len() {
            assert(delta[i].name == jar.removed[i - changed.len()]);
            assert(delta[j].name == jar.removed[j - changed.len()]);
        } else {
            assert(delta[i] == changed[i]);
            assert(jar.working.contains(changed[i]));
            let k = jar.working.index_of(changed[i]);
            assert(jar.working[k] == changed[i]);
            assert(delta[j].name == jar.removed[j - changed.len()]);
            assert(!has_name(jar.working, jar.removed[j - changed.len()]));
        }
    }
}

/// Removing a cookie that the request brought leaves exactly one entry of that
/// name in the delta: its clearing cookie, without a value and expired at any
/// time after the epoch.
pub proof fn law_remove_leaves_one_tombstone(jar: JarModel, name: Seq<char>)
    requires
        jar.wf(),
        has_name(jar.original, name),
    ensures
        holds_once(jar.remove(name).delta(), name, RecordModel::tombstone(name)),
        forall|now: int| now > 0 ==> RecordModel::tombstone(name).is_tombstone_at(now),
{
    let after = jar.remove(name);
    lemma_remove_wf(jar, name);
    law_delta_names_once(after);
    let changed = changed_records(after.original, after.working);
    let delta = after.delta();
    let at_original = crate::model::index_of_name(jar.original, name);
    assert(jar.original[at_original].name == name);
    assert(after.removed.contains(name)) by {
        if has_name(jar.working, name) {
            assert(after.removed[jar.removed.len() as int] == name);
        }
    }
    let k = after.removed.index_of(name);
    assert(after.removed[k] == name);
    let i = changed.len() + k;
    assert(delta[i] == RecordModel::tombstone(name));
    assert forall|j: int| 0 <= j < delta.len() && (#[trigger] delta[j]).name == name implies j
        == i by {
        if j < i {
            assert(delta[j].name != delta[i].name);
        } else if i < j {
            assert(delta[i].name != delta[j].name);
        }
    }
}

/// Removing a name that the jar never held changes nothing and leaves no entry
/// of that name in the delta.
pub proof fn law_remove_unknown_leaves_nothing(jar: JarModel, name: Seq<char>)
    requires
        jar.wf(),
        !has_name(jar.original, name),
        !has_name(jar.working, name),
        !jar.removed.contains(name),
    ensures
        jar.remove(name) == jar,
        holds_none(jar.remove(name).delta(), name),
{
    let changed = changed_records(jar.original, jar.working);
    let delta = jar.delta();
    lemma_changed_records_within(jar.original, jar.working);
    assert forall|j: int| 0 <= j < delta.len() implies (#[trigger] delta[j]).name != name by {
        if j < changed.len() {
            assert(delta[j] == changed[j]);
            assert(jar.working.contains(changed[j]));
            let k = jar.working.index_of(changed[j]);
            assert(jar.working[k] == changed[j]);
        } else {
            assert(delta[j].name == jar.removed[j - changed.len()]);
            assert(jar.removed.contains(jar.removed[j - changed.len()]));
        }
    }
}

/// A cookie that was set and then removed is reported by exactly one clearing
/// cookie, whether or not the request had brought it.
pub proof fn law_set_then_remove_leaves_one_tombstone(
    jar: JarModel,
    name: Seq<char>,
    value: Seq<char>,
    attributes: AttributesModel,
)
    requires
        jar.wf(),
        name.len() > 0,
    ensures
        holds_once(
            jar.set(name, value, attributes).remove(name).delta(),
            name,
            RecordModel::tombstone(name),
        ),
{
    let set = jar.set(name, value, attributes);
    let after = set.remove(name);
    lemma_set_wf(jar, name, value, attributes);
    lemma_remove_wf(set, name);
    lemma_upsert(jar.working, RecordModel::new(name, value, attributes));
    law_delta_names_once(after);
    let changed = changed_records(after.original, after.working);
    let delta = after.delta();
    assert(has_name(set.working, name));
    let k = set.removed.len() as int;
    assert(after.removed[k] == name);
    let i = changed.len() + k;
    assert(delta[i] == RecordModel::tombstone(name));
    assert forall|j: int| 0 <= j < delta.len() && (#[trigger] delta[j]).name == name implies j
        == i by {
        if j < i {
            assert(delta[j].name != delta[i].name);
        } else if i < j {
            assert(delta[i].name != delta[j].name);
        }
    }
}

/// A cookie that is set to something other than what the request brought under
/// that name is reported exactly once, as it was set.
pub proof fn law_set_is_reported_once(
    jar: JarModel,
    name: Seq<char>,
    value: Seq<char>,
    attributes: AttributesModel,
)
    requires
        jar.wf(),
        name.len() > 0,
        is_changed(jar.original, RecordModel::new(name, value, attributes)),
    ensures
        holds_once(
            jar.set(name, value, attributes).delta(),
            name,
            RecordModel::new(name, value, attributes),
        ),
{
    let record = RecordModel::new(name, value, attributes);
    let after = jar.set(name, value, attributes);
    lemma_set_wf(jar, name, value, attributes);
    lemma_upsert(jar.working, record);
    law_delta_names_once(after);
    let delta = after.delta();
    let at = crate::model::index_of_name(after.working, name);
    assert(has_name(after.working, name));
    assert(after.working[at] == record);
    lemma_changed_record_is_listed(after.original, after.working, at);
    let changed = changed_records(after.original, after.working);
    let i = changed.index_of(record);
    assert(changed.contains(record));
    assert(changed[i] == record);
    assert(delta[i] == record);
    assert forall|j: int| 0 <= j < delta.len() && (#[trigger] delta[j]).name == name implies j
        == i by {
        if j < i {
            assert(delta[j].name != delta[i].name);
        } else if i < j {
            assert(delta[i].name != delta[j].name);
        }
    }
}

proof fn lemma_changed_record_is_listed(
    original: Seq<RecordModel>,
    working: Seq<RecordModel>,
    at: int,
)
    requires
        0 <= at < working.len(),
        is_changed(original, working[at]),
    ensures
        changed_records(original, working).contains(working[at]),
    decreases working.len(),
{
    let all = changed_records(original, working);
    let shorter = working.drop_last();
    if at == working.len() - 1 {
        assert(working.last() == working[at]);
        assert(all[all.len() - 1] == working[at]);
    } else {
        assert(shorter[at] == working[at]);
        lemma_changed_record_is_listed(original, shorter, at);
        let earlier = changed_records(original, shorter);
        let k = earlier.index_of(working[at]);
        assert(earlier[k] == working[at]);
        assert(all[k] == working[at]);
    }
}

/// Two deltas taken from one jar with no change in between are equal.
pub proof fn law_delta_repeats(jar: CookieJar, first: Vec<CookieRecord>, second: Vec<CookieRecord>)
    requires
        first.deep_view() == jar@.delta(),
        second.deep_view() == jar@.delta(),
    ensures
        first.deep_view() == second.deep_view(),
{
}

} // verus!
