//! Remotes by directory, and their names in the keys of the groups.

use crate::groups::{ascending, put, put_keeps_ascending, Group, GroupModel, Groups};
use crate::groups::{position_is_unique, put_effect};
use crate::text::{same_text, sorts_before, sorts_before_asymmetric};
use vstd::prelude::*;

verus! {

/// A named place with which a directory is synchronised. Only the name is
/// used here.
#[derive(Clone, Debug, PartialEq, Eq)]
pub struct Remote {
    pub name: String,
}

impl Remote {
    /// The name under which the remote is shown.
    pub fn name(&self) -> (name: &str)
        ensures
            name@ == self.name@,
    {
        self.name.as_str()
    }
}

/// The map that the pairs build up, each pair put in turn: of two pairs with
/// one key the later one counts.
pub open spec fn map_of(pairs: Seq<(String, Remote)>) -> Map<Seq<char>, Remote>
    decreases pairs.len(),
{
    if pairs.len() == 0 {
        Map::empty()
    } else {
        map_of(pairs.drop_last()).insert(pairs.last().0@, pairs.last().1)
    }
}

/// The remotes of a project, by the directory that each one serves.
pub struct RemoteMap {
    pairs: Vec<(String, Remote)>,
}

impl View for RemoteMap {
    type V = Map<Seq<char>, Remote>;

    closed spec fn view(&self) -> Map<Seq<char>, Remote> {
        map_of(self.pairs@)
    }
}

impl RemoteMap {
    /// No remotes.
    pub fn new() -> (remotes: RemoteMap)
        ensures
            remotes@ == Map::<Seq<char>, Remote>::empty(),
    {
        RemoteMap { pairs: Vec::new() }
    }

    /// Gives `directory` the remote `remote`, in place of the one it had.
    pub fn insert(&mut self, directory: String, remote: Remote)
        ensures
            final(self)@ == old(self)@.insert(directory@, remote),
    {
        let ghost before = self.pairs@;
        self.pairs.push((directory, remote));
        proof {
            assert(self.pairs@.drop_last() =~= before);
        }
    }

    /// The remote of `directory`, where it has one.
    pub fn get(&self, directory: &str) -> (remote: Option<&Remote>)
        ensures
            match remote {
                Some(r) => self@.dom().contains(directory@) && *r == self@[directory@],
                None => !self@.dom().contains(directory@),
            },
    {
        let mut i: usize = self.pairs.len();
        proof {
            assert(self.pairs@.take(i as int) =~= self.pairs@);
        }
        while i > 0
            invariant
                i <= self.pairs@.len(),
                self@.dom().contains(directory@) == map_of(self.pairs@.take(i as int)).dom().contains(
                    directory@,
                ),
                self@.dom().contains(directory@) ==> self@[directory@] == map_of(
                    self.pairs@.take(i as int),
                )[directory@],
            decreases i,
        {
            proof {
                assert(self.pairs@.take(i as int).drop_last() =~= self.pairs@.take(i - 1));
            }
            i = i - 1;
            if same_text(self.pairs[i].0.as_str(), directory) {
                return Some(&self.pairs[i].1);
            }
        }
        None
    }
}

/// The key of a group once the name of its remote is merged in: the key, the
/// text " > " and the name. A key without a remote stays as it is.
pub open spec fn merged_key(key: Seq<char>, remotes: Map<Seq<char>, Remote>) -> Seq<char> {
    if remotes.dom().contains(key) {
        key + " > "@ + remotes[key].name@
    } else {
        key
    }
}

/// The groups with the names of their remotes merged into the keys, each
/// group put under its new key in turn. Where two groups come to one key, the
/// later one takes the place of the earlier.
pub open spec fn merged(groups: Seq<GroupModel>, remotes: Map<Seq<char>, Remote>) -> Seq<
    GroupModel,
>
    decreases groups.len(),
{
    if groups.len() == 0 {
        Seq::empty()
    } else {
        put(
            merged(groups.drop_last(), remotes),
            merged_key(groups.last().key, remotes),
            groups.last().entries,
        )
    }
}

/// Merged groups have ascending keys again.
pub proof fn merged_is_ascending(groups: Seq<GroupModel>, remotes: Map<Seq<char>, Remote>)
    ensures
        ascending(merged(groups, remotes)),
    decreases groups.len(),
{
    if groups.len() > 0 {
        merged_is_ascending(groups.drop_last(), remotes);
        put_keeps_ascending(
            merged(groups.drop_last(), remotes),
            merged_key(groups.last().key, remotes),
            groups.last().entries,
        );
    }
}

/// Where no group has a remote, merging changes nothing.
pub proof fn merged_without_match(groups: Seq<GroupModel>, remotes: Map<Seq<char>, Remote>)
    requires
        ascending(groups),
        forall|i: int| 0 <= i < groups.len() ==> !remotes.dom().contains((#[trigger] groups[i]).key),
    ensures
        merged(groups, remotes) == groups,
    decreases groups.len(),
{
    if groups.len() > 0 {
        let rest = groups.drop_last();
        assert forall|i: int| 0 <= i < rest.len() implies !remotes.dom().contains(
            (#[trigger] rest[i]).key,
        ) by {
            assert(rest[i] == groups[i]);
        }
        assert(ascending(rest)) by {
            assert forall|i: int, j: int| 0 <= i < j < rest.len() implies sorts_before(
                (#[trigger] rest[i]).key,
                (#[trigger] rest[j]).key,
            ) by {
                assert(rest[i] == groups[i]);
                assert(rest[j] == groups[j]);
            }
        }
        merged_without_match(rest, remotes);
        let last = groups.last();
        assert(groups[groups.len() - 1] == last);
        if rest.len() > 0 {
            assert(rest.last() == groups[groups.len() - 2]);
            sorts_before_asymmetric(rest.last().key, last.key);
        }
        assert(rest.push(last) =~= groups);
    }
}

/// A group whose directory has a remote gets the key of the directory, the
/// text " > " and the remote's name.
pub proof fn merged_single(group: GroupModel, remotes: Map<Seq<char>, Remote>)
    ensures
        merged(seq![group], remotes) == seq![
            GroupModel { key: merged_key(group.key, remotes), entries: group.entries },
        ],
{
    assert(seq![group].drop_last() =~= Seq::<GroupModel>::empty());
    assert(merged(seq![group].drop_last(), remotes) =~= Seq::<GroupModel>::empty());
}

/// A group as it stands after merging: under its merged key, with its own
/// entries.
pub open spec fn merged_group(group: GroupModel, remotes: Map<Seq<char>, Remote>) -> GroupModel {
    GroupModel { key: merged_key(group.key, remotes), entries: group.entries }
}

/// `group` is one of the `groups` as it stands after merging.
pub open spec fn comes_from(
    groups: Seq<GroupModel>,
    remotes: Map<Seq<char>, Remote>,
    group: GroupModel,
) -> bool {
    exists|i: int| 0 <= i < groups.len() && group == merged_group(#[trigger] groups[i], remotes)
}

/// No two of the groups come to one key by merging.
pub open spec fn no_collision(groups: Seq<GroupModel>, remotes: Map<Seq<char>, Remote>) -> bool {
    forall|i: int, j: int|
        0 <= i < j < groups.len() ==> merged_key((#[trigger] groups[i]).key, remotes)
            != merged_key((#[trigger] groups[j]).key, remotes)
}

/// Every merged group is one of the groups under its merged key, with its
/// entries unchanged.
pub proof fn merged_groups_come_from_groups(
    groups: Seq<GroupModel>,
    remotes: Map<Seq<char>, Remote>,
)
    ensures
        forall|p: int|
            0 <= p < merged(groups, remotes).len() ==> comes_from(
                groups,
                remotes,
                #[trigger] merged(groups, remotes)[p],
            ),
    decreases groups.len(),
{
    if groups.len() > 0 {
        let rest = groups.drop_last();
        let last = groups.last();
        let inner = merged(rest, remotes);
        let after = merged(groups, remotes);
        let group = merged_group(last, remotes);
        merged_groups_come_from_groups(rest, remotes);
        merged_is_ascending(groups, remotes);
        put_effect(inner, group.key, group.entries);
        let q = choose|q: int| 0 <= q < after.len() && #[trigger] after[q] == group;
        assert(groups[groups.len() - 1] == last);
        assert forall|p: int| 0 <= p < after.len() implies comes_from(
            groups,
            remotes,
            #[trigger] after[p],
        ) by {
            if after[p].key == group.key {
                position_is_unique(after, group.key, p);
                position_is_unique(after, group.key, q);
            } else {
                let k = choose|k: int| 0 <= k < inner.len() && #[trigger] inner[k] == after[p];
                assert(comes_from(rest, remotes, inner[k]));
                let i = choose|i: int|
                    0 <= i < rest.len() && inner[k] == merged_group(#[trigger] rest[i], remotes);
                assert(rest[i] == groups[i]);
            }
        }
    }
}

/// Where no two groups come to one key, every group stands among the merged
/// ones, under its merged key and with its entries unchanged.
pub proof fn merged_holds_each_group(groups: Seq<GroupModel>, remotes: Map<Seq<char>, Remote>)
    requires
        no_collision(groups, remotes),
    ensures
        forall|i: int|
            0 <= i < groups.len() ==> merged(groups, remotes).contains(
                merged_group(#[trigger] groups[i], remotes),
            ),
    decreases groups.len(),
{
    if groups.len() > 0 {
        let rest = groups.drop_last();
        let last = groups.last();
        let inner = merged(rest, remotes);
        let after = merged(groups, remotes);
        let group = merged_group(last, remotes);
        assert(no_collision(rest, remotes)) by {
            assert forall|i: int, j: int| 0 <= i < j < rest.len() implies merged_key(
                (#[trigger] rest[i]).key,
                remotes,
            ) != merged_key((#[trigger] rest[j]).key, remotes) by {
                assert(rest[i] == groups[i]);
                assert(rest[j] == groups[j]);
            }
        }
        merged_holds_each_group(rest, remotes);
        put_effect(inner, group.key, group.entries);
        let q = choose|q: int| 0 <= q < after.len() && #[trigger] after[q] == group;
        assert(groups[groups.len() - 1] == last);
        assert forall|i: int| 0 <= i < groups.len() implies after.contains(
            merged_group(#[trigger] groups[i], remotes),
        ) by {
            if i == groups.len() - 1 {
                assert(after[q] == merged_group(groups[i], remotes));
            } else {
                assert(rest[i] == groups[i]);
                let wanted = merged_group(rest[i], remotes);
                assert(inner.contains(wanted));
                let k = choose|k: int| 0 <= k < inner.len() && inner[k] == wanted;
                assert(inner[k].key != group.key);
                let p = choose|p: int| 0 <= p < after.len() && #[trigger] after[p] == inner[k];
                assert(after[p] == wanted);
            }
        }
    }
}

/// Merges the names of the remotes into the keys of the groups. `None`
/// leaves the groups as they are.
pub fn merge_remote_names(groups: Groups, remotes: Option<&RemoteMap>) -> (merged_groups: Groups)
    ensures
        merged_groups@ == match remotes {
            Some(map) => merged(groups@, map@),
            None => groups@,
        },
        ascending(merged_groups@),
{
    let map = match remotes {
        None => {
            proof {
                use_type_invariant(&groups);
            }
            return groups;
        },
        Some(map) => map,
    };
    let ghost before = groups@;
    let list = groups.into_list();
    let mut result = Groups::new();
    let ghost views = list@.map_values(|g: Group| g@);
    for group in it: list.into_iter()
        invariant
            remotes == Some(map),
            before == views,
            views == it.seq().map_values(|g: Group| g@),
            result@ == merged(before.take(it.index() as int), map@),
    {
        proof {
            let next = before.take(it.index() + 1);
            assert(next.drop_last() =~= before.take(it.index() as int));
            assert(next.last() == group@);
        }
        let key = match map.get(group.key.as_str()) {
            Some(remote) => {
                let mut key = group.key;
                key.append(" > ");
                key.append(remote.name());
                key
            },
            None => group.key,
        };
        result = result.insert(key, group.entries);
    }
    proof {
        assert(before.take(before.len() as int) =~= before);
        merged_is_ascending(before, map@);
    }
    result
}

} // verus!
