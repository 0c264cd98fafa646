//! Groups of entries under sorted keys: the rows of a status table by
//! directory.

use crate::status::StatusEntry;
use crate::text::{sorts_before, stands_before};
use crate::text::{sorts_before_asymmetric, sorts_before_total, sorts_before_transitive};
use vstd::prelude::*;

verus! {

/// The entries that stand under one key.
#[derive(Clone, Debug, PartialEq, Eq)]
pub struct Group {
    pub key: String,
    pub entries: Vec<StatusEntry>,
}

/// The mathematical value of a [`Group`].
pub ghost struct GroupModel {
    pub key: Seq<char>,
    pub entries: Seq<StatusEntry>,
}

impl View for Group {
    type V = GroupModel;

    open spec fn view(&self) -> GroupModel {
        GroupModel { key: self.key@, entries: self.entries@ }
    }
}

/// The keys stand in strictly ascending order, so none occurs twice.
pub open spec fn ascending(groups: Seq<GroupModel>) -> bool {
    forall|i: int, j: int|
        0 <= i < j < groups.len() ==> sorts_before(
            (#[trigger] groups[i]).key,
            (#[trigger] groups[j]).key,
        )
}

/// The groups after `entries` were put under `key`: they take the place of
/// what stood under that key before, or the key takes its place in the order.
pub open spec fn put(groups: Seq<GroupModel>, key: Seq<char>, entries: Seq<StatusEntry>) -> Seq<
    GroupModel,
>
    decreases groups.len(),
{
    let group = GroupModel { key, entries };
    if groups.len() == 0 {
        seq![group]
    } else if groups.last().key == key {
        groups.drop_last().push(group)
    } else if sorts_before(groups.last().key, key) {
        groups.push(group)
    } else {
        put(groups.drop_last(), key, entries).push(groups.last())
    }
}

/// The position of `key` among the groups, where it occurs.
pub open spec fn position_of(groups: Seq<GroupModel>, key: Seq<char>) -> Option<int> {
    if exists|i: int| 0 <= i < groups.len() && (#[trigger] groups[i]).key == key {
        Some(choose|i: int| 0 <= i < groups.len() && (#[trigger] groups[i]).key == key)
    } else {
        None
    }
}

/// The entries that stand under `key`: none where the key does not occur.
pub open spec fn entries_under(groups: Seq<GroupModel>, key: Seq<char>) -> Seq<StatusEntry> {
    match position_of(groups, key) {
        Some(i) => groups[i].entries,
        None => Seq::empty(),
    }
}

/// Where `key` belongs at position `at`, `put` replaces the group just before
/// `at` if that has the key, and else inserts a group at `at`.
pub proof fn put_at(groups: Seq<GroupModel>, key: Seq<char>, entries: Seq<StatusEntry>, at: int)
    requires
        0 <= at <= groups.len(),
        forall|j: int| at <= j < groups.len() ==> sorts_before(key, (#[trigger] groups[j]).key),
        at > 0 ==> groups[at - 1].key == key || sorts_before(groups[at - 1].key, key),
    ensures
        put(groups, key, entries) == if at > 0 && groups[at - 1].key == key {
            groups.update(at - 1, GroupModel { key, entries })
        } else {
            groups.insert(at, GroupModel { key, entries })
        },
    decreases groups.len() - at,
{
    let group = GroupModel { key, entries };
    if at == groups.len() {
        if groups.len() == 0 {
            assert(seq![group] =~= groups.insert(at, group));
        } else if groups.last().key == key {
            assert(groups.drop_last().push(group) =~= groups.update(at - 1, group));
        } else {
            assert(groups.push(group) =~= groups.insert(at, group));
        }
    } else {
        let last = groups.last();
        sorts_before_asymmetric(key, last.key);
        let rest = groups.drop_last();
        assert forall|j: int| at <= j < rest.len() implies sorts_before(
            key,
            (#[trigger] rest[j]).key,
        ) by {
            assert(rest[j] == groups[j]);
        }
        if at > 0 {
            assert(rest[at - 1] == groups[at - 1]);
        }
        put_at(rest, key, entries, at);
        if at > 0 && groups[at - 1].key == key {
            assert(rest.update(at - 1, group).push(last) =~= groups.update(at - 1, group));
        } else {
            assert(rest.insert(at, group).push(last) =~= groups.insert(at, group));
        }
    }
}

/// Putting a group among ascending keys leaves the keys ascending.
pub proof fn put_keeps_ascending(groups: Seq<GroupModel>, key: Seq<char>, entries: Seq<StatusEntry>)
    requires
        ascending(groups),
    ensures
        ascending(put(groups, key, entries)),
    decreases groups.len(),
{
    let group = GroupModel { key, entries };
    let after = put(groups, key, entries);
    if groups.len() == 0 {
    } else if groups.last().key == key {
        assert forall|i: int, j: int| 0 <= i < j < after.len() implies sorts_before(
            (#[trigger] after[i]).key,
            (#[trigger] after[j]).key,
        ) by {
            assert(after[i] == groups[i]);
            assert(after[j].key == groups[j].key);
        }
    } else if sorts_before(groups.last().key, key) {
        assert forall|i: int, j: int| 0 <= i < j < after.len() implies sorts_before(
            (#[trigger] after[i]).key,
            (#[trigger] after[j]).key,
        ) by {
            assert(after[i] == groups[i]);
            if j < groups.len() {
                assert(after[j] == groups[j]);
            } else if i < groups.len() - 1 {
                sorts_before_transitive(groups[i].key, groups.last().key, key);
            }
        }
    } else {
        let rest = groups.drop_last();
        let last = groups.last();
        assert forall|i: int, j: int| 0 <= i < j < rest.len() implies sorts_before(
            (#[trigger] rest[i]).key,
            (#[trigger] rest[j]).key,
        ) by {
            assert(rest[i] == groups[i]);
            assert(rest[j] == groups[j]);
        }
        put_keeps_ascending(rest, key, entries);
        put_effect(rest, key, entries);
        sorts_before_total(last.key, key);
        let inner = put(rest, key, entries);
        assert forall|i: int, j: int| 0 <= i < j < after.len() implies sorts_before(
            (#[trigger] after[i]).key,
            (#[trigger] after[j]).key,
        ) by {
            if j < inner.len() {
                assert(after[i] == inner[i]);
                assert(after[j] == inner[j]);
            } else {
                assert(after[i] == inner[i]);
                assert(after[j] == last);
                if inner[i].key != key {
                    let k = choose|k: int| 0 <= k < rest.len() && #[trigger] rest[k] == inner[i];
                    assert(rest[k] == groups[k]);
                }
            }
        }
    }
}

/// After `put`, the new group stands among the groups, and the groups with
/// other keys are the ones that were there before.
pub proof fn put_effect(groups: Seq<GroupModel>, key: Seq<char>, entries: Seq<StatusEntry>)
    ensures
        exists|p: int|
            0 <= p < put(groups, key, entries).len() && #[trigger] put(groups, key, entries)[p]
                == (GroupModel { key, entries }),
        forall|i: int|
            0 <= i < put(groups, key, entries).len() ==> (#[trigger] put(
                groups,
                key,
                entries,
            )[i]).key == key || exists|k: int|
                0 <= k < groups.len() && #[trigger] groups[k] == put(groups, key, entries)[i],
        forall|k: int|
            0 <= k < groups.len() ==> (#[trigger] groups[k]).key == key || exists|i: int|
                0 <= i < put(groups, key, entries).len() && #[trigger] put(groups, key, entries)[i]
                    == groups[k],
    decreases groups.len(),
{
    let after = put(groups, key, entries);
    let group = GroupModel { key, entries };
    if groups.len() == 0 {
        assert(after[0] == group);
    } else if groups.last().key == key || sorts_before(groups.last().key, key) {
        assert(after[after.len() - 1] == group);
        assert forall|i: int| 0 <= i < after.len() implies (#[trigger] after[i]).key == key
            || exists|k: int| 0 <= k < groups.len() && #[trigger] groups[k] == after[i] by {
            if i < after.len() - 1 {
                assert(groups[i] == after[i]);
            }
        }
        assert forall|k: int| 0 <= k < groups.len() implies (#[trigger] groups[k]).key == key
            || exists|i: int| 0 <= i < after.len() && #[trigger] after[i] == groups[k] by {
            if groups[k].key != key {
                assert(after[k] == groups[k]);
            }
        }
    } else {
        let rest = groups.drop_last();
        put_effect(rest, key, entries);
        let inner = put(rest, key, entries);
        let p = choose|p: int| 0 <= p < inner.len() && #[trigger] inner[p] == group;
        assert(after[p] == group);
        assert forall|i: int| 0 <= i < after.len() implies (#[trigger] after[i]).key == key
            || exists|k: int| 0 <= k < groups.len() && #[trigger] groups[k] == after[i] by {
            if i < inner.len() {
                assert(after[i] == inner[i]);
                if inner[i].key != key {
                    let k = choose|k: int| 0 <= k < rest.len() && #[trigger] rest[k] == inner[i];
                    assert(groups[k] == after[i]);
                }
            } else {
                assert(groups[groups.len() - 1] == after[i]);
            }
        }
        assert forall|k: int| 0 <= k < groups.len() implies (#[trigger] groups[k]).key == key
            || exists|i: int| 0 <= i < after.len() && #[trigger] after[i] == groups[k] by {
            if groups[k].key != key {
                if k < rest.len() {
                    assert(rest[k] == groups[k]);
                    let i = choose|i: int| 0 <= i < inner.len() && #[trigger] inner[i] == rest[k];
                    assert(after[i] == groups[k]);
                } else {
                    assert(after[after.len() - 1] == groups[k]);
                }
            }
        }
    }
}

/// Among ascending keys each key has one position.
pub proof fn position_is_unique(groups: Seq<GroupModel>, key: Seq<char>, at: int)
    requires
        ascending(groups),
        0 <= at < groups.len(),
        groups[at].key == key,
    ensures
        position_of(groups, key) == Some(at),
        entries_under(groups, key) == groups[at].entries,
{
    let found = position_of(groups, key)->0;
    if found < at {
        sorts_before_asymmetric(groups[found].key, groups[at].key);
    } else if found > at {
        sorts_before_asymmetric(groups[at].key, groups[found].key);
    }
}

/// Groups of entries, held in the ascending order of their keys.
pub struct Groups {
    list: Vec<Group>,
}

impl View for Groups {
    type V = Seq<GroupModel>;

    closed spec fn view(&self) -> Seq<GroupModel> {
        self.list@.map_values(|g: Group| g@)
    }
}

/// Where `key` belongs in `list`: all groups from `at` on have later keys,
/// and the group before `at` has the key itself, if `found`, or an earlier
/// one.
fn locate(list: &Vec<Group>, key: &str) -> (place: (usize, bool))
    ensures
        place.0 <= list@.len(),
        forall|j: int| place.0 <= j < list@.len() ==> sorts_before(key@, (#[trigger] list@[j]).key@),
        place.1 ==> place.0 > 0 && list@[place.0 - 1].key@ == key@,
        !place.1 && place.0 > 0 ==> sorts_before(list@[place.0 - 1].key@, key@),
{
    let mut at: usize = list.len();
    while at > 0 && stands_before(key, list[at - 1].key.as_str())
        invariant
            at <= list@.len(),
            forall|j: int| at <= j < list@.len() ==> sorts_before(key@, (#[trigger] list@[j]).key@),
        decreases at,
    {
        at = at - 1;
    }
    if at > 0 && !stands_before(list[at - 1].key.as_str(), key) {
        proof {
            sorts_before_total(list@[at - 1].key@, key@);
        }
        (at, true)
    } else {
        (at, false)
    }
}

impl Groups {
    /// What holds of every value of the type: the keys ascend.
    #[verifier::type_invariant]
    pub open spec fn keys_ascend(&self) -> bool {
        ascending(self@)
    }

    /// No groups.
    pub fn new() -> (groups: Groups)
        ensures
            groups@ == Seq::<GroupModel>::empty(),
    {
        let groups = Groups { list: Vec::new() };
        assert(groups@ =~= Seq::<GroupModel>::empty());
        groups
    }

    /// The groups as a list, in the order of their keys.
    pub fn into_list(self) -> (list: Vec<Group>)
        ensures
            list@.map_values(|g: Group| g@) == self@,
            ascending(self@),
    {
        proof {
            use_type_invariant(&self);
        }
        self.list
    }

    /// The number of groups.
    pub fn len(&self) -> (n: usize)
        ensures
            n == self@.len(),
    {
        self.list.len()
    }

    /// The group at position `i` in the order of the keys.
    pub fn get(&self, i: usize) -> (group: Option<&Group>)
        ensures
            ascending(self@),
            match group {
                Some(g) => i < self@.len() && g@ == self@[i as int],
                None => i >= self@.len(),
            },
    {
        proof {
            use_type_invariant(self);
        }
        if i < self.list.len() {
            Some(&self.list[i])
        } else {
            None
        }
    }

    /// Puts `entries` under `key`. What stood under that key before is
    /// replaced: the last one put wins.
    pub fn insert(self, key: String, entries: Vec<StatusEntry>) -> (groups: Groups)
        ensures
            groups@ == put(self@, key@, entries@),
            ascending(groups@),
    {
        proof {
            use_type_invariant(&self);
        }
        let ghost before = self@;
        let ghost model = GroupModel { key: key@, entries: entries@ };
        let mut list = self.list;
        let (at, found) = locate(&list, key.as_str());
        proof {
            put_at(before, key@, entries@, at as int);
            put_keeps_ascending(before, key@, entries@);
        }
        let group = Group { key, entries };
        if found {
            list.set(at - 1, group);
            assert(list@.map_values(|g: Group| g@) =~= before.update(at - 1, model));
        } else {
            proof {
                if at > 0 {
                    sorts_before_asymmetric(before[at - 1].key, model.key);
                }
            }
            list.insert(at, group);
            assert(list@.map_values(|g: Group| g@) =~= before.insert(at as int, model));
        }
        Groups { list }
    }

    /// Adds `entry` behind the entries that stand under `key`. A key that
    /// did not occur takes its place in the order, with this one entry.
    pub fn push_entry(self, key: String, entry: StatusEntry) -> (groups: Groups)
        ensures
            groups@ == put(self@, key@, entries_under(self@, key@).push(entry)),
            ascending(groups@),
    {
        proof {
            use_type_invariant(&self);
        }
        let ghost before = self@;
        let ghost entries = entries_under(before, key@).push(entry);
        let ghost model = GroupModel { key: key@, entries };
        let mut list = self.list;
        let (at, found) = locate(&list, key.as_str());
        proof {
            put_at(before, key@, entries, at as int);
            put_keeps_ascending(before, key@, entries);
        }
        if found {
            proof {
                position_is_unique(before, key@, at - 1);
            }
            let mut group = list.remove(at - 1);
            group.entries.push(entry);
            list.insert(at - 1, group);
            assert(list@.map_values(|g: Group| g@) =~= before.update(at - 1, model));
        } else {
            proof {
                if at > 0 {
                    sorts_before_asymmetric(before[at - 1].key, model.key);
                }
                assert forall|i: int| 0 <= i < before.len() implies (#[trigger] before[i]).key
                    != key@ by {
                    if i < at {
                        if i < at - 1 {
                            sorts_before_transitive(before[i].key, before[at - 1].key, key@);
                        }
                        sorts_before_asymmetric(before[i].key, key@);
                    } else {
                        sorts_before_asymmetric(key@, before[i].key);
                    }
                }
            }
            let mut fresh: Vec<StatusEntry> = Vec::new();
            fresh.push(entry);
            assert(fresh@ =~= entries);
            list.insert(at, Group { key, entries: fresh });
            assert(list@.map_values(|g: Group| g@) =~= before.insert(at as int, model));
        }
        Groups { list }
    }
}

} // verus!
