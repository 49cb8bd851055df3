//! Merging hook groups into the settings of an agent's command-line tool.
//!
//! Settings hold, under `hooks`, an object that maps each event to an array of
//! hook groups. Groups are added to what is there: nothing that was there is
//! lost, and no group is added that is there already.

use crate::json;
use crate::json::find_key;
use crate::json::put_entry;
use crate::json::Json;
use crate::json::JsonModel;
use vstd::prelude::*;

verus! {

/// Why groups could not be merged.
#[derive(Debug, PartialEq, Eq)]
pub enum MergeError {
    /// The settings are no object.
    RootNotObject,
    /// The settings have `hooks`, and it is no object.
    HooksNotObject,
    /// The settings have the event, and it is no array.
    EventNotArray(String),
}

/// Why groups could not be merged, as mathematics sees it.
pub enum MergeFault {
    RootNotObject,
    HooksNotObject,
    EventNotArray(Seq<char>),
}

impl View for MergeError {
    type V = MergeFault;

    open spec fn view(&self) -> MergeFault {
        match self {
            MergeError::RootNotObject => MergeFault::RootNotObject,
            MergeError::HooksNotObject => MergeFault::HooksNotObject,
            MergeError::EventNotArray(event) => MergeFault::EventNotArray(event@),
        }
    }
}

/// The groups of an event after new ones were added: each new group that equals
/// none before it goes to the end.
pub open spec fn merged_groups(existing: Seq<JsonModel>, added: Seq<JsonModel>) -> Seq<JsonModel>
    decreases added.len(),
{
    if added.len() == 0 {
        existing
    } else {
        let before = merged_groups(existing, added.drop_last());
        if json::holds_equal(before, added.last()) {
            before
        } else {
            before.push(added.last())
        }
    }
}

/// The events after the groups of one event were added. What is added is
/// ignored where it is no array.
pub open spec fn merged_event(
    events: Seq<(Seq<char>, JsonModel)>,
    event: Seq<char>,
    groups: JsonModel,
) -> Result<Seq<(Seq<char>, JsonModel)>, MergeFault> {
    match groups {
        JsonModel::Array(added) => match json::lookup(events, event) {
            Some(JsonModel::Array(existing)) => Ok(
                json::put(events, event, JsonModel::Array(merged_groups(existing, added))),
            ),
            Some(_) => Err(MergeFault::EventNotArray(event)),
            None => Ok(json::put(events, event, groups)),
        },
        _ => Ok(events),
    }
}

/// The events after the groups of several events were added, one by one.
pub open spec fn merged_events(
    events: Seq<(Seq<char>, JsonModel)>,
    added: Seq<(Seq<char>, JsonModel)>,
) -> Result<Seq<(Seq<char>, JsonModel)>, MergeFault>
    decreases added.len(),
{
    if added.len() == 0 {
        Ok(events)
    } else {
        match merged_events(events, added.drop_last()) {
            Ok(before) => merged_event(before, added.last().0, added.last().1),
            Err(fault) => Err(fault),
        }
    }
}

/// The events in the settings; none where the settings have no `hooks`.
pub open spec fn events_of(config: JsonModel) -> Result<Seq<(Seq<char>, JsonModel)>, MergeFault> {
    match config {
        JsonModel::Object(entries) => match json::lookup(entries, "hooks"@) {
            Some(JsonModel::Object(events)) => Ok(events),
            Some(_) => Err(MergeFault::HooksNotObject),
            None => Ok(Seq::empty()),
        },
        _ => Err(MergeFault::RootNotObject),
    }
}

/// The settings after the groups of several events were added.
pub open spec fn merged(config: JsonModel, added: Seq<(Seq<char>, JsonModel)>) -> Result<
    JsonModel,
    MergeFault,
> {
    match events_of(config) {
        Ok(events) => match merged_events(events, added) {
            Ok(after) => Ok(
                JsonModel::Object(
                    json::put(config->Object_0, "hooks"@, JsonModel::Object(after)),
                ),
            ),
            Err(fault) => Err(fault),
        },
        Err(fault) => Err(fault),
    }
}

fn has_equal(groups: &Vec<Json>, group: &Json) -> (yes: bool)
    ensures
        yes == json::holds_equal(json::models(groups@), group@),
{
    let ghost all = json::models(groups@);
    let mut i: usize = 0;
    while i < groups.len()
        invariant
            all == json::models(groups@),
            i <= groups@.len(),
            forall|j: int| 0 <= j < i ==> !json::equal(#[trigger] all[j], group@),
        decreases groups@.len() - i,
    {
        assert(all[i as int] == groups@[i as int]@);
        if groups[i].equals(group) {
            return true;
        }
        i += 1;
    }
    false
}

/// Adds groups to the groups of an event.
pub fn merge_groups(existing: Vec<Json>, added: Vec<Json>) -> (groups: Vec<Json>)
    ensures
        json::models(groups@) == merged_groups(json::models(existing@), json::models(added@)),
{
    let ghost old_models = json::models(existing@);
    let ghost new_models = json::models(added@);
    let mut groups: Vec<Json> = existing;
    let ghost all = added@;
    assert(new_models.take(0) =~= Seq::<JsonModel>::empty());
    for group in iter: added.into_iter()
        invariant
            iter.seq() == all,
            new_models == json::models(all),
            json::models(groups@) == merged_groups(
                old_models,
                new_models.take(iter.index() as int),
            ),
    {
        let ghost at = iter.index() as int;
        proof {
            assert(new_models[at] == group@);
            assert(new_models.take(at + 1).drop_last() =~= new_models.take(at));
            assert(new_models.take(at + 1).last() == group@);
        }
        if !has_equal(&groups, &group) {
            let ghost before = groups@;
            let ghost model = group@;
            groups.push(group);
            assert(json::models(groups@) =~= json::models(before).push(model));
        }
    }
    assert(new_models.take(all.len() as int) =~= new_models);
    groups
}

/// Adds the groups of one event.
pub fn merge_event(events: Vec<(String, Json)>, event: String, groups: Json) -> (result: Result<
    Vec<(String, Json)>,
    MergeError,
>)
    ensures
        match result {
            Ok(after) => merged_event(json::entry_models(events@), event@, groups@) == Ok::<
                _,
                MergeFault,
            >(json::entry_models(after@)),
            Err(error) => merged_event(json::entry_models(events@), event@, groups@) == Err::<
                Seq<(Seq<char>, JsonModel)>,
                _,
            >(error@),
        },
{
    broadcast use json::lemma_array_model;

    let mut events: Vec<(String, Json)> = events;
    let ghost before = json::entry_models(events@);
    match groups {
        Json::Array(added) => match find_key(&events, event.as_str()) {
            Some(i) => {
                let (key, existing) = events.remove(i);
                match existing {
                    Json::Array(list) => {
                        let ghost name = key@;
                        let after: Json = Json::Array(merge_groups(list, added));
                        let ghost model = after@;
                        events.insert(i, (key, after));
                        proof {
                            json::lemma_put_at(before, event@, i as int, model);
                            assert(json::entry_models(events@) =~= before.update(
                                i as int,
                                (name, model),
                            ));
                        }
                        Ok(events)
                    },
                    _ => Err(MergeError::EventNotArray(event)),
                }
            },
            None => {
                put_entry(&mut events, event, Json::Array(added));
                Ok(events)
            },
        },
        _ => Ok(events),
    }
}

/// Adds the groups of several events. The first event of the settings that is
/// no array stops the merge.
pub fn merge_events(events: Vec<(String, Json)>, added: Vec<(String, Json)>) -> (result: Result<
    Vec<(String, Json)>,
    MergeError,
>)
    ensures
        match result {
            Ok(after) => merged_events(json::entry_models(events@), json::entry_models(added@))
                == Ok::<_, MergeFault>(json::entry_models(after@)),
            Err(error) => merged_events(json::entry_models(events@), json::entry_models(added@))
                == Err::<Seq<(Seq<char>, JsonModel)>, _>(error@),
        },
{
    let ghost old_models = json::entry_models(events@);
    let ghost new_models = json::entry_models(added@);
    let ghost all = added@;
    let mut current: Vec<(String, Json)> = events;
    assert(new_models.take(0) =~= Seq::<(Seq<char>, JsonModel)>::empty());
    for entry in iter: added.into_iter()
        invariant
            iter.seq() == all,
            new_models == json::entry_models(all),
            old_models == json::entry_models(events@),
            added@ == all,
            merged_events(old_models, new_models.take(iter.index() as int)) == Ok::<_, MergeFault>(
                json::entry_models(current@),
            ),
    {
        let ghost at = iter.index() as int;
        proof {
            assert(new_models[at] == (entry.0@, entry.1@));
            assert(new_models.take(at + 1).drop_last() =~= new_models.take(at));
            assert(new_models.take(at + 1).last() == new_models[at]);
        }
        let (event, groups) = entry;
        match merge_event(current, event, groups) {
            Ok(after) => {
                current = after;
            },
            Err(error) => {
                proof {
                    lemma_fault_stays(old_models, new_models, at + 1, error@);
                }
                return Err(error);
            },
        }
    }
    assert(new_models.take(all.len() as int) =~= new_models);
    Ok(current)
}

/// A fault found in a part of the additions is the fault of the whole.
proof fn lemma_fault_stays(
    events: Seq<(Seq<char>, JsonModel)>,
    added: Seq<(Seq<char>, JsonModel)>,
    n: int,
    fault: MergeFault,
)
    requires
        0 <= n <= added.len(),
        merged_events(events, added.take(n)) == Err::<Seq<(Seq<char>, JsonModel)>, _>(fault),
    ensures
        merged_events(events, added) == Err::<Seq<(Seq<char>, JsonModel)>, _>(fault),
    decreases added.len() - n,
{
    if n == added.len() {
        assert(added.take(n) =~= added);
    } else {
        assert(added.take(n + 1).drop_last() =~= added.take(n));
        lemma_fault_stays(events, added, n + 1, fault);
    }
}

/// Adds the groups of the events in `hooks`, an object, to the settings.
pub fn merge_hooks(config: Json, hooks: Json) -> (result: Result<Json, MergeError>)
    requires
        hooks@ is Object,
    ensures
        match result {
            Ok(after) => merged(config@, hooks@->Object_0) == Ok::<_, MergeFault>(after@),
            Err(error) => merged(config@, hooks@->Object_0) == Err::<JsonModel, _>(error@),
        },
{
    broadcast use {json::lemma_array_model, json::lemma_object_model};

    let mut added: Vec<(String, Json)> = Vec::new();
    if let Json::Object(entries) = hooks {
        added = entries;
    }
    match config {
        Json::Object(entries) => {
            let mut entries: Vec<(String, Json)> = entries;
            let ghost before = json::entry_models(entries@);
            match find_key(&entries, "hooks") {
                Some(i) => {
                    let (key, found) = entries.remove(i);
                    let events: Vec<(String, Json)> = match found {
                        Json::Object(existing) => existing,
                        _ => {
                            return Err(MergeError::HooksNotObject);
                        },
                    };
                    let after: Json = match merge_events(events, added) {
                        Ok(after) => Json::Object(after),
                        Err(error) => {
                            return Err(error);
                        },
                    };
                    let ghost model = after@;
                    let ghost name = key@;
                    entries.insert(i, (key, after));
                    proof {
                        json::lemma_put_at(before, "hooks"@, i as int, model);
                        assert(json::entry_models(entries@) =~= before.update(
                            i as int,
                            (name, model),
                        ));
                    }
                    Ok(Json::Object(entries))
                },
                None => {
                    let events: Vec<(String, Json)> = Vec::new();
                    assert(json::entry_models(events@) =~= Seq::empty());
                    match merge_events(events, added) {
                        Ok(after) => {
                            put_entry(&mut entries, "hooks".to_owned(), Json::Object(after));
                            Ok(Json::Object(entries))
                        },
                        Err(error) => Err(error),
                    }
                },
            }
        },
        _ => Err(MergeError::RootNotObject),
    }
}

/// Whether `before` is the beginning of `after`.
pub open spec fn begins(after: Seq<JsonModel>, before: Seq<JsonModel>) -> bool {
    before.len() <= after.len() && after.take(before.len() as int) == before
}

/// Whether every group of `added` has an equal in `groups`.
pub open spec fn holds_all(groups: Seq<JsonModel>, added: Seq<JsonModel>) -> bool {
    forall|i: int| 0 <= i < added.len() ==> json::holds_equal(groups, #[trigger] added[i])
}

/// Whether what an event had is still there: an array as the beginning of an
/// array, anything else as it was.
pub open spec fn kept(before: Option<JsonModel>, after: Option<JsonModel>) -> bool {
    match before {
        Some(JsonModel::Array(old_groups)) => after matches Some(JsonModel::Array(groups))
            && begins(groups, old_groups),
        Some(other) => after == before,
        None => true,
    }
}

/// Whether the groups added for an event are there.
pub open spec fn arrived(groups: JsonModel, after: Option<JsonModel>) -> bool {
    groups matches JsonModel::Array(added) ==> after matches Some(JsonModel::Array(list))
        && holds_all(list, added)
}

/// Merged groups begin with the groups that were there, and hold an equal of
/// every group that was added.
pub proof fn law_groups_kept_and_added(existing: Seq<JsonModel>, added: Seq<JsonModel>)
    ensures
        begins(merged_groups(existing, added), existing),
        holds_all(merged_groups(existing, added), added),
    decreases added.len(),
{
    if added.len() == 0 {
        assert(existing.take(existing.len() as int) =~= existing);
    } else {
        let before = merged_groups(existing, added.drop_last());
        let after = merged_groups(existing, added);
        law_groups_kept_and_added(existing, added.drop_last());
        assert(after.take(existing.len() as int) =~= before.take(existing.len() as int));
        assert forall|i: int| 0 <= i < added.len() implies json::holds_equal(
            after,
            #[trigger] added[i],
        ) by {
            if i < added.len() - 1 {
                assert(added.drop_last()[i] == added[i]);
                assert(json::holds_equal(before, added.drop_last()[i]));
                let k = choose|k: int|
                    0 <= k < before.len() && json::equal(#[trigger] before[k], added[i]);
                assert(after[k] == before[k]);
            } else if !json::holds_equal(before, added.last()) {
                json::lemma_equal_reflexive(added.last());
                assert(after[before.len() as int] == added.last());
            }
        }
    }
}

/// A group that was appended equals no group before it: merging creates no
/// duplicates.
pub proof fn law_no_duplicate_added(existing: Seq<JsonModel>, added: Seq<JsonModel>, i: int, j: int)
    requires
        existing.len() <= j < merged_groups(existing, added).len(),
        0 <= i < j,
    ensures
        !json::equal(merged_groups(existing, added)[i], merged_groups(existing, added)[j]),
    decreases added.len(),
{
    if added.len() > 0 {
        let before = merged_groups(existing, added.drop_last());
        if j < before.len() {
            law_no_duplicate_added(existing, added.drop_last(), i, j);
        } else {
            assert(merged_groups(existing, added)[i] == before[i]);
        }
    }
}

/// Groups that are all there already are not added again.
pub proof fn law_groups_present_change_nothing(existing: Seq<JsonModel>, added: Seq<JsonModel>)
    requires
        holds_all(existing, added),
    ensures
        merged_groups(existing, added) == existing,
    decreases added.len(),
{
    if added.len() > 0 {
        assert forall|i: int| 0 <= i < added.drop_last().len() implies json::holds_equal(
            existing,
            #[trigger] added.drop_last()[i],
        ) by {
            assert(added.drop_last()[i] == added[i]);
        }
        law_groups_present_change_nothing(existing, added.drop_last());
        assert(json::holds_equal(existing, added[added.len() - 1]));
    }
}

proof fn lemma_begins_transitive(a: Seq<JsonModel>, b: Seq<JsonModel>, c: Seq<JsonModel>)
    requires
        begins(b, a),
        begins(c, b),
    ensures
        begins(c, a),
{
    assert(c.take(a.len() as int) =~= b.take(a.len() as int)) by {
        assert forall|i: int| 0 <= i < a.len() implies c[i] == b[i] by {
            assert(c.take(b.len() as int)[i] == b[i]);
        }
    }
}

proof fn lemma_kept_transitive(
    a: Option<JsonModel>,
    b: Option<JsonModel>,
    c: Option<JsonModel>,
)
    requires
        kept(a, b),
        kept(b, c),
    ensures
        kept(a, c),
{
    if let Some(JsonModel::Array(x)) = a {
        lemma_begins_transitive(x, b->0->Array_0, c->0->Array_0);
    }
}

proof fn lemma_kept_reflexive(a: Option<JsonModel>)
    ensures
        kept(a, a),
{
    if let Some(JsonModel::Array(x)) = a {
        assert(x.take(x.len() as int) =~= x);
    }
}

proof fn lemma_arrived_kept(groups: JsonModel, a: Option<JsonModel>, b: Option<JsonModel>)
    requires
        arrived(groups, a),
        kept(a, b),
    ensures
        arrived(groups, b),
{
    if let JsonModel::Array(added) = groups {
        let x = a->0->Array_0;
        let y = b->0->Array_0;
        assert forall|i: int| 0 <= i < added.len() implies json::holds_equal(
            y,
            #[trigger] added[i],
        ) by {
            assert(json::holds_equal(x, added[i]));
            let k = choose|k: int| 0 <= k < x.len() && json::equal(#[trigger] x[k], added[i]);
            assert(y.take(x.len() as int)[k] == y[k]);
        }
    }
}

proof fn lemma_holds_all_self(groups: Seq<JsonModel>)
    ensures
        holds_all(groups, groups),
{
    assert forall|i: int| 0 <= i < groups.len() implies json::holds_equal(
        groups,
        #[trigger] groups[i],
    ) by {
        json::lemma_equal_reflexive(groups[i]);
    }
}

/// Adding one event keeps what every event had, brings the event's groups, and
/// leaves the other events as they were.
proof fn lemma_event_merged(
    events: Seq<(Seq<char>, JsonModel)>,
    event: Seq<char>,
    groups: JsonModel,
    other: Seq<char>,
)
    requires
        merged_event(events, event, groups) is Ok,
    ensures
        kept(
            json::lookup(events, other),
            json::lookup(merged_event(events, event, groups)->Ok_0, other),
        ),
        other == event ==> arrived(
            groups,
            json::lookup(merged_event(events, event, groups)->Ok_0, other),
        ),
        other != event ==> json::lookup(merged_event(events, event, groups)->Ok_0, other)
            == json::lookup(events, other),
{
    lemma_kept_reflexive(json::lookup(events, other));
    if let JsonModel::Array(added) = groups {
        let value = match json::lookup(events, event) {
            Some(JsonModel::Array(existing)) => JsonModel::Array(merged_groups(existing, added)),
            _ => groups,
        };
        json::lemma_lookup_put(events, event, value, other);
        if let Some(JsonModel::Array(existing)) = json::lookup(events, event) {
            law_groups_kept_and_added(existing, added);
        } else {
            lemma_holds_all_self(added);
        }
    }
}

/// Whether an event is among those added.
pub open spec fn names_event(added: Seq<(Seq<char>, JsonModel)>, event: Seq<char>) -> bool {
    exists|i: int| 0 <= i < added.len() && (#[trigger] added[i]).0 == event
}

/// A merge keeps what every event had, and leaves the events that are not added
/// as they were.
pub proof fn law_events_kept(
    events: Seq<(Seq<char>, JsonModel)>,
    added: Seq<(Seq<char>, JsonModel)>,
    event: Seq<char>,
)
    requires
        merged_events(events, added) is Ok,
    ensures
        kept(json::lookup(events, event), json::lookup(merged_events(events, added)->Ok_0, event)),
        !names_event(added, event) ==> json::lookup(merged_events(events, added)->Ok_0, event)
            == json::lookup(events, event),
    decreases added.len(),
{
    if added.len() == 0 {
        lemma_kept_reflexive(json::lookup(events, event));
    } else {
        let part = added.drop_last();
        let before = merged_events(events, part)->Ok_0;
        law_events_kept(events, part, event);
        lemma_event_merged(before, added.last().0, added.last().1, event);
        lemma_kept_transitive(
            json::lookup(events, event),
            json::lookup(before, event),
            json::lookup(merged_events(events, added)->Ok_0, event),
        );
        if !names_event(added, event) {
            assert(added[added.len() - 1].0 != event);
            if names_event(part, event) {
                let i = choose|i: int| 0 <= i < part.len() && (#[trigger] part[i]).0 == event;
                assert(added[i].0 == event);
            }
        }
    }
}

/// After a merge the groups of every added event are there.
pub proof fn law_events_added(
    events: Seq<(Seq<char>, JsonModel)>,
    added: Seq<(Seq<char>, JsonModel)>,
    i: int,
)
    requires
        merged_events(events, added) is Ok,
        0 <= i < added.len(),
    ensures
        arrived(added[i].1, json::lookup(merged_events(events, added)->Ok_0, added[i].0)),
    decreases added.len(),
{
    let part = added.drop_last();
    let before = merged_events(events, part)->Ok_0;
    lemma_event_merged(before, added.last().0, added.last().1, added[i].0);
    if i < added.len() - 1 {
        law_events_added(events, part, i);
        assert(part[i] == added[i]);
        lemma_arrived_kept(
            added[i].1,
            json::lookup(before, added[i].0),
            json::lookup(merged_events(events, added)->Ok_0, added[i].0),
        );
    }
}

/// Events whose groups are all there already are merged without any change.
pub proof fn law_events_present_change_nothing(
    events: Seq<(Seq<char>, JsonModel)>,
    added: Seq<(Seq<char>, JsonModel)>,
)
    requires
        forall|i: int|
            0 <= i < added.len() ==> arrived(
                (#[trigger] added[i]).1,
                json::lookup(events, added[i].0),
            ),
    ensures
        merged_events(events, added) == Ok::<_, MergeFault>(events),
    decreases added.len(),
{
    if added.len() > 0 {
        let part = added.drop_last();
        assert forall|i: int| 0 <= i < part.len() implies arrived(
            (#[trigger] part[i]).1,
            json::lookup(events, part[i].0),
        ) by {
            assert(part[i] == added[i]);
        }
        law_events_present_change_nothing(events, part);
        let (event, groups) = added[added.len() - 1];
        assert(arrived(groups, json::lookup(events, event)));
        if let JsonModel::Array(list) = groups {
            let existing = json::lookup(events, event)->0->Array_0;
            law_groups_present_change_nothing(existing, list);
            let k = choose|k: int| json::key_at(events, event, k);
            assert(json::key_at(events, event, k));
            json::lemma_put_at(events, event, k, JsonModel::Array(existing));
            assert(events.update(k, (event, JsonModel::Array(existing))) =~= events);
        }
    }
}

/// A merge changes nothing in the settings but `hooks`, and keeps what every
/// event had.
pub proof fn law_settings_kept(
    config: JsonModel,
    added: Seq<(Seq<char>, JsonModel)>,
    key: Seq<char>,
    event: Seq<char>,
)
    requires
        merged(config, added) is Ok,
    ensures
        key != "hooks"@ ==> json::member(merged(config, added)->Ok_0, key) == json::member(
            config,
            key,
        ),
        kept(
            json::lookup(events_of(config)->Ok_0, event),
            json::lookup(events_of(merged(config, added)->Ok_0)->Ok_0, event),
        ),
        !names_event(added, event) ==> json::lookup(
            events_of(merged(config, added)->Ok_0)->Ok_0,
            event,
        ) == json::lookup(events_of(config)->Ok_0, event),
{
    let events = events_of(config)->Ok_0;
    let after = merged_events(events, added)->Ok_0;
    json::lemma_lookup_put(config->Object_0, "hooks"@, JsonModel::Object(after), key);
    json::lemma_lookup_put(config->Object_0, "hooks"@, JsonModel::Object(after), "hooks"@);
    law_events_kept(events, added, event);
}

/// After a merge the settings hold the groups of every added event.
pub proof fn law_settings_added(
    config: JsonModel,
    added: Seq<(Seq<char>, JsonModel)>,
    i: int,
)
    requires
        merged(config, added) is Ok,
        0 <= i < added.len(),
    ensures
        events_of(merged(config, added)->Ok_0) is Ok,
        arrived(
            added[i].1,
            json::lookup(events_of(merged(config, added)->Ok_0)->Ok_0, added[i].0),
        ),
{
    let events = events_of(config)->Ok_0;
    let after = merged_events(events, added)->Ok_0;
    json::lemma_lookup_put(config->Object_0, "hooks"@, JsonModel::Object(after), "hooks"@);
    law_events_added(events, added, i);
}

/// Merging the same groups twice gives what merging them once gives.
pub proof fn law_merge_idempotent(config: JsonModel, added: Seq<(Seq<char>, JsonModel)>)
    requires
        merged(config, added) is Ok,
    ensures
        merged(merged(config, added)->Ok_0, added) == merged(config, added),
{
    let events = events_of(config)->Ok_0;
    let after = merged_events(events, added)->Ok_0;
    let entries = json::put(config->Object_0, "hooks"@, JsonModel::Object(after));
    json::lemma_lookup_put(config->Object_0, "hooks"@, JsonModel::Object(after), "hooks"@);
    assert forall|i: int| 0 <= i < added.len() implies arrived(
        (#[trigger] added[i]).1,
        json::lookup(after, added[i].0),
    ) by {
        law_events_added(events, added, i);
    }
    law_events_present_change_nothing(after, added);
    let k = choose|k: int| json::key_at(entries, "hooks"@, k);
    assert(json::key_at(entries, "hooks"@, k));
    json::lemma_put_at(entries, "hooks"@, k, JsonModel::Object(after));
    assert(entries.update(k, ("hooks"@, JsonModel::Object(after))) =~= entries);
}

proof fn lemma_groups_valid(existing: Seq<JsonModel>, added: Seq<JsonModel>, depth: nat)
    ensures
        json::well_formed(JsonModel::Array(existing)) && json::well_formed(JsonModel::Array(added))
            ==> json::well_formed(JsonModel::Array(merged_groups(existing, added))),
        json::nested(JsonModel::Array(existing), depth) && json::nested(
            JsonModel::Array(added),
            depth,
        ) ==> json::nested(JsonModel::Array(merged_groups(existing, added)), depth),
    decreases added.len(),
{
    let after = merged_groups(existing, added);
    let part = added.drop_last();
    assert(JsonModel::Array(existing)->Array_0 == existing);
    assert(JsonModel::Array(added)->Array_0 == added);
    assert(JsonModel::Array(after)->Array_0 == after);
    assert(JsonModel::Array(part)->Array_0 == part);
    if added.len() > 0 {
        let before = merged_groups(existing, part);
        assert(JsonModel::Array(before)->Array_0 == before);
        lemma_groups_valid(existing, part, depth);
        assert forall|i: int| 0 <= i < part.len() implies (#[trigger] part[i]) == added[i] by {}
        assert forall|i: int| 0 <= i < before.len() implies (#[trigger] after[i]) == before[i] by {}
        assert(after.len() > before.len() ==> after[before.len() as int] == added[added.len() - 1]);
        if json::well_formed(JsonModel::Array(existing)) && json::well_formed(
            JsonModel::Array(added),
        ) {
            assert(json::well_formed(JsonModel::Array(part)));
            assert(forall|i: int| 0 <= i < after.len() ==> json::well_formed(#[trigger] after[i]));
        }
        if json::nested(JsonModel::Array(existing), depth) && json::nested(
            JsonModel::Array(added),
            depth,
        ) {
            assert(json::nested(JsonModel::Array(part), depth));
            assert(forall|i: int|
                0 <= i < after.len() ==> json::nested(#[trigger] after[i], (depth - 1) as nat));
        }
    }
}

proof fn lemma_event_valid(
    events: Seq<(Seq<char>, JsonModel)>,
    event: Seq<char>,
    groups: JsonModel,
    depth: nat,
)
    requires
        merged_event(events, event, groups) is Ok,
    ensures
        ({
            let after = JsonModel::Object(merged_event(events, event, groups)->Ok_0);
            &&& json::well_formed(JsonModel::Object(events)) && json::well_formed(groups)
                ==> json::well_formed(after)
            &&& json::nested(JsonModel::Object(events), depth) && json::nested(
                groups,
                (depth - 1) as nat,
            ) ==> json::nested(after, depth)
        }),
{
    if let JsonModel::Array(added) = groups {
        let whole = JsonModel::Object(events);
        let value = match json::lookup(events, event) {
            Some(JsonModel::Array(existing)) => JsonModel::Array(merged_groups(existing, added)),
            _ => groups,
        };
        if let Some(JsonModel::Array(existing)) = json::lookup(events, event) {
            assert(json::member(whole, event) == Some(JsonModel::Array(existing)));
            json::lemma_member_valid(whole, event, depth);
            lemma_groups_valid(existing, added, (depth - 1) as nat);
        }
        if json::well_formed(whole) && json::well_formed(groups) {
            json::lemma_put_well_formed(events, event, value);
        }
        if json::nested(whole, depth) && json::nested(groups, (depth - 1) as nat) {
            json::lemma_put_nested(events, event, value, depth);
        }
    }
}

proof fn lemma_events_valid(
    events: Seq<(Seq<char>, JsonModel)>,
    added: Seq<(Seq<char>, JsonModel)>,
    depth: nat,
)
    requires
        merged_events(events, added) is Ok,
    ensures
        ({
            let before = JsonModel::Object(events);
            let hooks = JsonModel::Object(added);
            let after = JsonModel::Object(merged_events(events, added)->Ok_0);
            &&& json::well_formed(before) && json::well_formed(hooks) ==> json::well_formed(after)
            &&& json::nested(before, depth) && json::nested(hooks, depth) ==> json::nested(
                after,
                depth,
            )
        }),
    decreases added.len(),
{
    if added.len() > 0 {
        let part = added.drop_last();
        let (event, groups) = added[added.len() - 1];
        assert(JsonModel::Object(added)->Object_0 == added);
        assert(JsonModel::Object(part)->Object_0 == part);
        assert forall|i: int| 0 <= i < part.len() implies (#[trigger] part[i]) == added[i] by {}
        lemma_events_valid(events, part, depth);
        lemma_event_valid(merged_events(events, part)->Ok_0, event, groups, depth);
        if json::well_formed(JsonModel::Object(added)) {
            assert(json::well_formed(added[added.len() - 1].1));
            assert(json::sorted_keys(part));
            assert(json::well_formed(JsonModel::Object(part)));
        }
        if json::nested(JsonModel::Object(added), depth) {
            assert(json::nested(added[added.len() - 1].1, (depth - 1) as nat));
            assert(json::nested(JsonModel::Object(part), depth));
        }
    }
}

/// What can be stored can be stored after a merge: where the settings and the
/// added hooks have their keys in order or keep to the nesting, so do the
/// merged settings.
pub proof fn law_merge_valid(
    config: JsonModel,
    added: Seq<(Seq<char>, JsonModel)>,
    depth: nat,
)
    requires
        depth > 0,
        merged(config, added) is Ok,
    ensures
        ({
            let hooks = JsonModel::Object(added);
            let after = merged(config, added)->Ok_0;
            &&& json::well_formed(config) && json::well_formed(hooks) ==> json::well_formed(after)
            &&& json::nested(config, depth) && json::nested(hooks, (depth - 1) as nat)
                ==> json::nested(after, depth)
        }),
{
    let events = events_of(config)->Ok_0;
    let hooks = JsonModel::Object(added);
    let value = JsonModel::Object(merged_events(events, added)->Ok_0);
    lemma_events_valid(events, added, (depth - 1) as nat);
    if json::member(config, "hooks"@) is Some {
        json::lemma_member_valid(config, "hooks"@, depth);
    } else {
        assert(JsonModel::Object(events)->Object_0 == events);
        assert(json::well_formed(JsonModel::Object(events)));
        if json::nested(hooks, (depth - 1) as nat) {
            assert(json::nested(JsonModel::Object(events), (depth - 1) as nat));
        }
    }
    if json::well_formed(config) && json::well_formed(hooks) {
        json::lemma_put_well_formed(config->Object_0, "hooks"@, value);
    }
    if json::nested(config, depth) && json::nested(hooks, (depth - 1) as nat) {
        json::lemma_put_nested(config->Object_0, "hooks"@, value, depth);
    }
}

/// Settings that are alike to merged settings, as those read back from their
/// text are, hold the added groups, and merging again changes nothing.
pub proof fn law_merge_again_changes_nothing(
    config: JsonModel,
    added: Seq<(Seq<char>, JsonModel)>,
    back: JsonModel,
)
    requires
        merged(config, added) is Ok,
        json::alike(merged(config, added)->Ok_0, back),
        json::all_integral(JsonModel::Object(added)),
    ensures
        merged(back, added) == Ok::<_, MergeFault>(back),
{
    let after = merged(config, added)->Ok_0;
    let events = events_of(config)->Ok_0;
    let new_events = merged_events(events, added)->Ok_0;
    json::lemma_lookup_put(config->Object_0, "hooks"@, JsonModel::Object(new_events), "hooks"@);
    assert(json::member(after, "hooks"@) == Some(JsonModel::Object(new_events)));
    json::lemma_alike_member(after, back, "hooks"@);
    let back_events = json::member(back, "hooks"@)->0->Object_0;
    assert(json::member(back, "hooks"@) == Some(JsonModel::Object(back_events)));
    assert(JsonModel::Object(added)->Object_0 == added);
    assert forall|i: int| 0 <= i < added.len() implies arrived(
        (#[trigger] added[i]).1,
        json::lookup(back_events, added[i].0),
    ) by {
        law_events_added(events, added, i);
        json::lemma_alike_member(
            JsonModel::Object(new_events),
            JsonModel::Object(back_events),
            added[i].0,
        );
        if let JsonModel::Array(groups) = added[i].1 {
            let list = json::lookup(new_events, added[i].0)->0->Array_0;
            let back_list = json::lookup(back_events, added[i].0)->0->Array_0;
            assert(json::member(JsonModel::Object(new_events), added[i].0) == Some(
                JsonModel::Array(list),
            ));
            assert(json::alike(JsonModel::Array(list), JsonModel::Array(back_list)));
            assert(JsonModel::Array(list)->Array_0 == list);
            assert(JsonModel::Array(back_list)->Array_0 == back_list);
            assert(JsonModel::Array(groups)->Array_0 == groups);
            assert(json::all_integral(added[i].1));
            assert forall|k: int| 0 <= k < groups.len() implies json::holds_equal(
                back_list,
                #[trigger] groups[k],
            ) by {
                assert(json::holds_equal(list, groups[k]));
                let n = choose|n: int|
                    0 <= n < list.len() && json::equal(#[trigger] list[n], groups[k]);
                assert(json::all_integral(groups[k]));
                json::lemma_equal_alike(list[n], back_list[n], groups[k]);
            }
        }
    }
    law_events_present_change_nothing(back_events, added);
    let entries = back->Object_0;
    let k = json::lemma_lookup_entry(entries, "hooks"@);
    json::lemma_put_at(entries, "hooks"@, k, JsonModel::Object(back_events));
    assert(entries.update(k, ("hooks"@, JsonModel::Object(back_events))) =~= entries);
}

/// A group is put at the end of the groups of an event exactly where none of
/// them equals it, however many there are.
pub proof fn law_one_group_added(existing: Seq<JsonModel>, group: JsonModel)
    ensures
        (exists|i: int| 0 <= i < existing.len() && json::equal(#[trigger] existing[i], group))
            ==> merged_groups(existing, seq![group]) == existing,
        (forall|i: int| 0 <= i < existing.len() ==> !json::equal(#[trigger] existing[i], group))
            ==> merged_groups(existing, seq![group]) == existing.push(group),
{
    assert(seq![group].drop_last() =~= Seq::<JsonModel>::empty());
    assert(merged_groups(existing, Seq::empty()) == existing);
    assert(seq![group].last() == group);
}

/// Groups are added one after the other: adding two lists is adding the second
/// to what the first gave, and adding none changes nothing.
pub proof fn law_groups_added_in_turn(
    existing: Seq<JsonModel>,
    first: Seq<JsonModel>,
    second: Seq<JsonModel>,
)
    ensures
        merged_groups(existing, Seq::empty()) == existing,
        merged_groups(existing, first + second) == merged_groups(
            merged_groups(existing, first),
            second,
        ),
    decreases second.len(),
{
    if second.len() == 0 {
        assert(first + second =~= first);
    } else {
        let part = second.drop_last();
        law_groups_added_in_turn(existing, first, part);
        assert((first + second).drop_last() =~= first + part);
        assert((first + second).last() == second.last());
    }
}

/// The events bound to something else than an array stay so, and no event
/// becomes one of them.
proof fn lemma_arrays_stay(
    events: Seq<(Seq<char>, JsonModel)>,
    added: Seq<(Seq<char>, JsonModel)>,
    event: Seq<char>,
)
    requires
        merged_events(events, added) is Ok,
    ensures
        (json::lookup(merged_events(events, added)->Ok_0, event) matches Some(v) && !(v is Array))
            <==> (json::lookup(events, event) matches Some(v) && !(v is Array)),
    decreases added.len(),
{
    if added.len() > 0 {
        let part = added.drop_last();
        let before = merged_events(events, part)->Ok_0;
        lemma_arrays_stay(events, part, event);
        let (name, groups) = added.last();
        if let JsonModel::Array(list) = groups {
            let value = match json::lookup(before, name) {
                Some(JsonModel::Array(existing)) => JsonModel::Array(merged_groups(existing, list)),
                _ => groups,
            };
            json::lemma_lookup_put(before, name, value, event);
        }
    }
}

/// Whether an added event finds something else than an array under its name.
pub open spec fn stopped_at(
    events: Seq<(Seq<char>, JsonModel)>,
    added: Seq<(Seq<char>, JsonModel)>,
    i: int,
) -> bool {
    &&& 0 <= i < added.len()
    &&& added[i].1 is Array
    &&& json::lookup(events, added[i].0) is Some
    &&& !(json::lookup(events, added[i].0)->0 is Array)
}

/// Events are refused exactly where one of those added is there and is no array;
/// the first such event is the one that is named.
pub proof fn law_events_refused(
    events: Seq<(Seq<char>, JsonModel)>,
    added: Seq<(Seq<char>, JsonModel)>,
)
    ensures
        merged_events(events, added) is Ok <==> forall|i: int| !#[trigger]
            stopped_at(events, added, i),
        merged_events(events, added) matches Err(fault) ==> exists|i: int|
            #[trigger] stopped_at(events, added, i) && fault == MergeFault::EventNotArray(added[i].0)
                && forall|j: int| j < i ==> !#[trigger] stopped_at(events, added, j),
    decreases added.len(),
{
    if added.len() == 0 {
        assert(forall|i: int| !#[trigger] stopped_at(events, added, i));
    } else {
        let part = added.drop_last();
        let last = added.len() - 1;
        law_events_refused(events, part);
        assert forall|i: int| i < last implies #[trigger] stopped_at(events, added, i)
            == stopped_at(events, part, i) by {
            if 0 <= i < last {
                assert(part[i] == added[i]);
            }
        }
        assert forall|i: int| i > last implies !#[trigger] stopped_at(events, added, i) by {}
        match merged_events(events, part) {
            Ok(before) => {
                lemma_arrays_stay(events, part, added[last].0);
                assert forall|i: int| i < last implies !#[trigger] stopped_at(events, added, i) by {
                    assert(!stopped_at(events, part, i));
                }
                if stopped_at(events, added, last) {
                    assert(merged_events(events, added) == Err::<Seq<(Seq<char>, JsonModel)>, _>(
                        MergeFault::EventNotArray(added[last].0),
                    ));
                } else {
                    assert(merged_events(events, added) is Ok);
                    assert forall|i: int| !#[trigger] stopped_at(events, added, i) by {
                        if i == last {
                        } else if i < last {
                        }
                    }
                }
            },
            Err(fault) => {
                let i = choose|i: int|
                    #[trigger] stopped_at(events, part, i) && fault == MergeFault::EventNotArray(
                        part[i].0,
                    ) && forall|j: int| j < i ==> !#[trigger] stopped_at(events, part, j);
                assert(stopped_at(events, added, i));
                assert(part[i] == added[i]);
                assert forall|j: int| j < i implies !#[trigger] stopped_at(events, added, j) by {
                    assert(!stopped_at(events, part, j));
                }
            },
        }
    }
}

/// A merge succeeds exactly where the settings are an object, their `hooks` is
/// absent or an object, and every event added as an array is absent there or
/// bound to an array. Each fault comes exactly where it says what is wrong.
pub proof fn law_merge_outcome(config: JsonModel, added: Seq<(Seq<char>, JsonModel)>)
    ensures
        ({
            let hooks = json::member(config, "hooks"@);
            let outcome = merged(config, added);
            &&& outcome is Ok <==> config is Object && (hooks is None || (hooks->0 is Object
                && forall|i: int|
                0 <= i < added.len() && (#[trigger] added[i]).1 is Array ==> json::lookup(
                    hooks->0->Object_0,
                    added[i].0,
                ) is None || json::lookup(hooks->0->Object_0, added[i].0)->0 is Array))
            &&& outcome == Err::<JsonModel, _>(MergeFault::RootNotObject) <==> !(config is Object)
            &&& outcome == Err::<JsonModel, _>(MergeFault::HooksNotObject) <==> config is Object
                && hooks is Some && !(hooks->0 is Object)
            &&& outcome matches Err(MergeFault::EventNotArray(event)) ==> hooks is Some
                && hooks->0 is Object && json::lookup(hooks->0->Object_0, event) is Some && !(
            json::lookup(hooks->0->Object_0, event)->0 is Array) && exists|i: int|
                0 <= i < added.len() && (#[trigger] added[i]).0 == event && added[i].1 is Array
        }),
{
    let hooks = json::member(config, "hooks"@);
    if config is Object {
        if hooks is None {
            let none = Seq::<(Seq<char>, JsonModel)>::empty();
            law_events_refused(none, added);
            assert forall|i: int| !#[trigger] stopped_at(none, added, i) by {
                if 0 <= i < added.len() {
                    json::law_lookup(none, added[i].0);
                }
            }
            assert(merged_events(none, added) is Ok);
        } else if hooks->0 is Object {
            let events = hooks->0->Object_0;
            law_events_refused(events, added);
            if merged_events(events, added) is Ok {
                assert forall|i: int|
                    0 <= i < added.len() && (#[trigger] added[i]).1 is Array implies json::lookup(
                    events,
                    added[i].0,
                ) is None || json::lookup(events, added[i].0)->0 is Array by {
                    assert(!stopped_at(events, added, i));
                }
            } else {
                let i = choose|i: int|
                    #[trigger] stopped_at(events, added, i) && merged_events(events, added) == Err::<
                        Seq<(Seq<char>, JsonModel)>,
                        _,
                    >(MergeFault::EventNotArray(added[i].0));
                assert(stopped_at(events, added, i));
                assert(added[i].1 is Array);
            }
        }
    }
}

proof fn lemma_event_bound(
    events: Seq<(Seq<char>, JsonModel)>,
    added: Seq<(Seq<char>, JsonModel)>,
    i: int,
)
    requires
        merged_events(events, added) is Ok,
        0 <= i < added.len(),
        forall|j: int|
            0 <= j < added.len() && j != i ==> (#[trigger] added[j]).0 != added[i].0,
    ensures
        json::lookup(merged_events(events, added)->Ok_0, added[i].0) == match added[i].1 {
            JsonModel::Array(list) => match json::lookup(events, added[i].0) {
                Some(JsonModel::Array(existing)) => Some(
                    JsonModel::Array(merged_groups(existing, list)),
                ),
                _ => Some(added[i].1),
            },
            _ => json::lookup(events, added[i].0),
        },
    decreases added.len(),
{
    let part = added.drop_last();
    let before = merged_events(events, part)->Ok_0;
    let last = added.len() - 1;
    let event = added[i].0;
    assert forall|j: int| 0 <= j < part.len() implies (#[trigger] part[j]) == added[j] by {}
    if i == last {
        assert(!names_event(part, event));
        law_events_kept(events, part, event);
        if let JsonModel::Array(list) = added[i].1 {
            let value = match json::lookup(before, event) {
                Some(JsonModel::Array(existing)) => JsonModel::Array(merged_groups(existing, list)),
                _ => added[i].1,
            };
            json::lemma_lookup_put(before, event, value, event);
        }
    } else {
        lemma_event_bound(events, part, i);
        assert(added[last].0 != event);
        lemma_event_merged(before, added[last].0, added[last].1, event);
    }
}

/// What a merge binds each event to, where no event is added twice: an event that
/// was absent gets the added groups as they are, one that was there gets the new
/// ones behind its own, and every other event and every other setting stays.
pub proof fn law_merge_result(
    config: JsonModel,
    added: Seq<(Seq<char>, JsonModel)>,
    event: Seq<char>,
    key: Seq<char>,
)
    requires
        merged(config, added) is Ok,
        forall|i: int, j: int|
            0 <= i < j < added.len() ==> (#[trigger] added[i]).0 != (#[trigger] added[j]).0,
    ensures
        ({
            let after = merged(config, added)->Ok_0;
            let hooks = json::member(after, "hooks"@);
            let had = match json::member(config, "hooks"@) {
                Some(JsonModel::Object(events)) => json::lookup(events, event),
                _ => None,
            };
            &&& after is Object
            &&& hooks is Some && hooks->0 is Object
            &&& key != "hooks"@ ==> json::member(after, key) == json::member(config, key)
            &&& (forall|i: int|
                0 <= i < added.len() && (#[trigger] added[i]).1 is Array ==> added[i].0 != event)
                ==> json::lookup(hooks->0->Object_0, event) == had
            &&& forall|i: int|
                0 <= i < added.len() && (#[trigger] added[i]).0 == event && added[i].1 is Array
                    && had is None ==> json::lookup(hooks->0->Object_0, event) == Some(added[i].1)
            &&& forall|i: int|
                0 <= i < added.len() && (#[trigger] added[i]).0 == event && added[i].1 is Array
                    && had is Some ==> had->0 is Array && json::lookup(hooks->0->Object_0, event)
                    == Some(
                    JsonModel::Array(merged_groups(had->0->Array_0, added[i].1->Array_0)),
                )
        }),
{
    law_merge_outcome(config, added);
    let events = events_of(config)->Ok_0;
    let new_events = merged_events(events, added)->Ok_0;
    let after = merged(config, added)->Ok_0;
    json::lemma_lookup_put(config->Object_0, "hooks"@, JsonModel::Object(new_events), key);
    json::lemma_lookup_put(config->Object_0, "hooks"@, JsonModel::Object(new_events), "hooks"@);
    json::law_lookup(Seq::<(Seq<char>, JsonModel)>::empty(), event);
    let had = match json::member(config, "hooks"@) {
        Some(JsonModel::Object(found)) => json::lookup(found, event),
        _ => None,
    };
    assert(had == json::lookup(events, event));
    law_events_kept(events, added, event);
    if names_event(added, event) {
        let i = choose|i: int| 0 <= i < added.len() && (#[trigger] added[i]).0 == event;
        assert forall|j: int| 0 <= j < added.len() && j != i implies (#[trigger] added[j]).0
            != added[i].0 by {
            if j < i {
                assert(added[j].0 != added[i].0);
            } else {
                assert(added[i].0 != added[j].0);
            }
        }
        lemma_event_bound(events, added, i);
        law_events_refused(events, added);
        assert(!stopped_at(events, added, i));
        assert forall|j: int| 0 <= j < added.len() && (#[trigger] added[j]).0 == event implies j
            == i by {}
    }
}

} // verus!
